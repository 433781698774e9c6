use vstd::prelude::*;

verus! {

/// View of an optional text.
pub open spec fn opt_string_view(o: Option<String>) -> Option<Seq<char>> {
    match o {
        Some(s) => Some(s@),
        None => None,
    }
}

/// View of an optional borrowed text.
pub open spec fn opt_str_view(o: Option<&str>) -> Option<Seq<char>> {
    match o {
        Some(s) => Some(s@),
        None => None,
    }
}

/// A broker this system connects to as a client.
#[derive(Debug, Clone)]
pub struct Broker {
    pub id: i64,
    pub name: String,
    pub host: String,
    pub port: u16,
    pub username: Option<String>,
    pub password: Option<String>,
    pub tls_enabled: bool,
}

/// Metadata of a topic whose values are retained.
#[derive(Debug, Clone)]
pub struct Topic {
    pub id: i64,
    pub topic: String,
    pub parent_topic: Option<String>,
    pub max_values: usize,
    pub query_frequency_ms: u64,
}

/// Link between a broker and a topic.
#[derive(Debug, Clone, Copy, PartialEq, Eq)]
pub struct Subscription {
    pub id: i64,
    pub broker_id: i64,
    pub topic_id: i64,
    pub is_active: bool,
}

} // verus!
