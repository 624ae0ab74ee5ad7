//! What the service around the catalog is configured with, as far as it takes computing.

use vstd::prelude::*;
use vstd::string::StringExecFns;

verus! {

/// How much the service logs.
#[derive(Debug, Clone, Copy, PartialEq, Eq)]
pub enum LogLevel {
    Trace,
    Debug,
    Info,
    Warn,
    Error,
}

impl LogLevel {
    /// The name of the level as a log filter takes it.
    pub open spec fn filter_name(self) -> Seq<char> {
        match self {
            LogLevel::Trace => "trace"@,
            LogLevel::Debug => "debug"@,
            LogLevel::Info => "info"@,
            LogLevel::Warn => "warn"@,
            LogLevel::Error => "error"@,
        }
    }

    /// The name of the level as a log filter takes it.
    pub fn as_ref(&self) -> (r: &'static str)
        ensures
            r@ == self.filter_name(),
    {
        match self {
            LogLevel::Trace => "trace",
            LogLevel::Debug => "debug",
            LogLevel::Info => "info",
            LogLevel::Warn => "warn",
            LogLevel::Error => "error",
        }
    }
}

/// The origins whose pages may call the service.
#[derive(Debug, Clone, PartialEq, Eq)]
pub struct Origins(pub Vec<String>);

/// The cross-origin settings of the service.
#[derive(Debug, Clone, PartialEq, Eq)]
pub struct Cors {
    pub origins: Vec<String>,
}

/// The strings `parts`, with `separator` between each two of them.
pub open spec fn joined(parts: Seq<Seq<char>>, separator: Seq<char>) -> Seq<char>
    decreases parts.len(),
{
    if parts.len() == 0 {
        Seq::empty()
    } else if parts.len() == 1 {
        parts[0]
    } else {
        joined(parts.drop_last(), separator) + separator + parts.last()
    }
}

/// The characters of each of `strings`.
pub open spec fn string_views(strings: Seq<String>) -> Seq<Seq<char>> {
    Seq::new(strings.len(), |i: int| strings[i]@)
}

impl Cors {
    /// The origins as one header value: each origin, with `", "` between each two.
    pub fn origins_to_string(&self) -> (r: String)
        ensures
            r@ == joined(string_views(self.origins@), ", "@),
    {
        let ghost parts = string_views(self.origins@);
        let mut header = String::new();
        let mut i: usize = 0;
        assert(parts.take(0) == Seq::<Seq<char>>::empty());
        while i < self.origins.len()
            invariant
                i <= self.origins.len(),
                parts == string_views(self.origins@),
                header@ == joined(parts.take(i as int), ", "@),
            decreases self.origins.len() - i,
        {
            proof {
                assert(parts.take(i + 1).drop_last() == parts.take(i as int));
                assert(parts.take(i + 1).last() == self.origins@[i as int]@);
            }
            if i > 0 {
                header.append(", ");
            }
            header.append(self.origins[i].as_str());
            i = i + 1;
        }
        assert(parts.take(i as int) == parts);
        header
    }
}

} // verus!
