use vstd::prelude::*;

verus! {

/// Simulated time, in cycles.
pub type Time = u64;

/// A structured configuration or report value: the nested key/value shape the
/// surrounding simulator reads and writes.  Numbers here are integral.
pub enum ConfigurationValue {
    Number(i64),
    True,
    False,
    Literal(String),
    Array(Vec<ConfigurationValue>),
    Object(String, Vec<(String, ConfigurationValue)>),
}

/// Relies on std's string equality: two `str` values compare equal exactly
/// when they hold the same characters.
#[verifier::external_body]
pub fn str_eq(a: &str, b: &str) -> (r: bool)
    ensures
        r == (a@ == b@),
{
    a == b
}

impl ConfigurationValue {
    /// The name of an object value, or `None` for any other shape.
    pub fn object_name(&self) -> (r: Option<&String>)
        ensures
            r is Some <==> self is Object,
            r matches Some(s) ==> s == self->Object_0,
    {
        match self {
            ConfigurationValue::Object(name, _) => Some(name),
            _ => None,
        }
    }
}

} // verus!
