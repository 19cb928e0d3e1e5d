//! Human-readable error messages.
use vstd::prelude::*;
use vstd::string::*;
use crate::config::{ConfigError, strs};

verus! {

/// The messages of an error's causes, outermost first, joined by `": "`.
pub open spec fn joined(msgs: Seq<Seq<char>>) -> Seq<char>
    decreases msgs.len(),
{
    if msgs.len() == 0 {
        seq![]
    } else if msgs.len() == 1 {
        msgs[0]
    } else {
        joined(msgs.drop_last()) + ": "@ + msgs.last()
    }
}

/// An error with its entire causal chain: the messages from the outermost
/// cause inwards, joined by `": "`.
pub fn pretty_error(chain: &Vec<String>) -> (r: String)
    ensures
        r@ == joined(strs(chain@)),
{
    let mut out = String::new();
    let mut i: usize = 0;
    assert(strs(chain@).take(0) =~= seq![]);
    while i < chain.len()
        invariant
            i <= chain@.len(),
            out@ == joined(strs(chain@).take(i as int)),
        decreases chain.len() - i,
    {
        let ghost before = strs(chain@).take(i as int);
        assert(strs(chain@).take(i + 1).drop_last() =~= before);
        if i > 0 {
            out.append(": ");
        } else {
            assert(out@ =~= seq![]);
        }
        out.append(chain[i].as_str());
        i = i + 1;
    }
    assert(strs(chain@).take(i as int) =~= strs(chain@));
    out
}

/// The message of a settings error.
pub open spec fn message_of(e: ConfigError) -> Seq<char> {
    match e {
        ConfigError::BaseDirRelative(p) => "base_dir in "@ + p@ + " cannot be relative"@,
        ConfigError::BaseDirNotDir(p) => "base_dir must be a directory, found: "@ + p@,
        ConfigError::File(m) => "could not read config file: "@ + m@,
        ConfigError::Toml(m) => "error in config file: "@ + m@,
        ConfigError::Invalid(k) => "wrong kind of value for key: "@ + k@,
        ConfigError::MissingPath(l) => "no path given for dir."@ + l@,
        ConfigError::InvalidDir(l, k) => "wrong kind of value in dir."@ + l@ + ": "@ + k@,
    }
}

impl ConfigError {
    /// The message shown to the user.
    pub fn message(&self) -> (r: String)
        ensures
            r@ == message_of(*self),
    {
        match self {
            ConfigError::BaseDirRelative(p) => "base_dir in ".to_owned().concat(p.as_str()).concat(
                " cannot be relative",
            ),
            ConfigError::BaseDirNotDir(p) => "base_dir must be a directory, found: ".to_owned().concat(
                p.as_str(),
            ),
            ConfigError::File(m) => "could not read config file: ".to_owned().concat(m.as_str()),
            ConfigError::Toml(m) => "error in config file: ".to_owned().concat(m.as_str()),
            ConfigError::Invalid(k) => "wrong kind of value for key: ".to_owned().concat(k.as_str()),
            ConfigError::MissingPath(l) => "no path given for dir.".to_owned().concat(l.as_str()),
            ConfigError::InvalidDir(l, k) => "wrong kind of value in dir.".to_owned().concat(
                l.as_str(),
            ).concat(": ").concat(k.as_str()),
        }
    }
}

} // verus!
