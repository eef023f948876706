//! Run-scoped environment shared with executable nodes.
use vstd::prelude::*;
use vstd::string::*;
use crate::text::{decimal, decimal_text};

verus! {

/// Current version of the runtime database environment contract.
pub const DATABASE_SCHEMA_VERSION: u32 = 1;

/// Run-scoped database and identity information shared with executable
/// nodes: the session, the optional path of the per-run database, and the
/// version of the database contract.
#[derive(Debug, Clone, PartialEq, Eq)]
pub struct RunEnvironment {
    session_id: String,
    db_path: Option<String>,
    database_schema_version: u32,
}

/// The environment of one executable node invocation, as (name, value)
/// texts, in order.
pub open spec fn node_env(
    session: Seq<char>,
    db_path: Option<Seq<char>>,
    version: u32,
    node_id: Seq<char>,
    round: u32,
    config_json: Seq<char>,
) -> Seq<(Seq<char>, Seq<char>)> {
    let base = seq![
        ("EUREKA_SESSION_ID"@, session),
        ("EUREKA_NODE_ID"@, node_id),
        ("EUREKA_ROUND"@, decimal_text(round as nat)),
        ("EUREKA_CONFIG"@, config_json),
        ("EUREKA_DB_SCHEMA_VERSION"@, decimal_text(version as nat)),
        ("EUREKA_DB_NAMESPACE"@, node_id),
    ];
    match db_path {
        Some(p) => base.push(("EUREKA_DB_PATH"@, p)),
        None => base,
    }
}

/// The texts of a list of (name, value) pairs.
pub open spec fn pair_texts(v: Seq<(String, String)>) -> Seq<(Seq<char>, Seq<char>)> {
    v.map_values(|p: (String, String)| (p.0@, p.1@))
}

impl RunEnvironment {
    /// The session's identifier.
    pub closed spec fn session(self) -> Seq<char> {
        self.session_id@
    }

    /// The path of the per-run database, if any.
    pub closed spec fn database(self) -> Option<Seq<char>> {
        match self.db_path {
            Some(p) => Some(p@),
            None => None,
        }
    }

    /// The database contract version.
    pub closed spec fn version(self) -> u32 {
        self.database_schema_version
    }

    /// An environment for `session_id` with the current database contract
    /// version.
    pub fn new(session_id: String, db_path: Option<String>) -> (r: Self)
        ensures
            r.session() == session_id@,
            r.database() == (match db_path {
                Some(p) => Some(p@),
                None => None::<Seq<char>>,
            }),
            r.version() == DATABASE_SCHEMA_VERSION,
    {
        RunEnvironment { session_id, db_path, database_schema_version: DATABASE_SCHEMA_VERSION }
    }

    /// The stable session identifier.
    pub fn session_id(&self) -> (r: &str)
        ensures
            r@ == self.session(),
    {
        self.session_id.as_str()
    }

    /// The path of the per-run database, if any.
    pub fn db_path(&self) -> (r: Option<&String>)
        ensures
            match r {
                Some(p) => self.database() == Some(p@),
                None => self.database() is None,
            },
    {
        match &self.db_path {
            Some(p) => Some(p),
            None => None,
        }
    }

    /// The runtime database contract version.
    pub fn database_schema_version(&self) -> (r: u32)
        ensures
            r == self.version(),
    {
        self.database_schema_version
    }

    /// The environment passed to one invocation of executable node
    /// `node_id` in `round`: session, node, round, node configuration,
    /// database contract version and namespace, and the database path when
    /// there is one.
    pub fn subprocess_env(&self, node_id: &str, round: u32, config_json: &str) -> (r: Vec<(String, String)>)
        ensures
            pair_texts(r@) == node_env(
                self.session(),
                self.database(),
                self.version(),
                node_id@,
                round,
                config_json@,
            ),
    {
        let mut env: Vec<(String, String)> = Vec::new();
        env.push((String::from_str("EUREKA_SESSION_ID"), self.session_id.clone()));
        env.push((String::from_str("EUREKA_NODE_ID"), String::from_str(node_id)));
        env.push((String::from_str("EUREKA_ROUND"), decimal(round as u64)));
        env.push((String::from_str("EUREKA_CONFIG"), String::from_str(config_json)));
        env.push(
            (String::from_str("EUREKA_DB_SCHEMA_VERSION"), decimal(self.database_schema_version as u64)),
        );
        env.push((String::from_str("EUREKA_DB_NAMESPACE"), String::from_str(node_id)));
        match &self.db_path {
            Some(p) => {
                env.push((String::from_str("EUREKA_DB_PATH"), p.clone()));
            },
            None => {},
        }
        proof {
            let expect = node_env(self.session(), self.database(), self.version(), node_id@, round, config_json@);
            assert(pair_texts(env@) =~= expect);
        }
        env
    }
}

} // verus!
