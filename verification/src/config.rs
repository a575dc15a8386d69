//! Run configuration parsed from the command line: a mode word — `find`,
//! `update` or `revert` — and, for the first two, a hexadecimal prefix the
//! found hash must start with. The caller hands the raw arguments in as
//! plain strings, program name first.

use vstd::prelude::*;

verus! {

/// An ASCII hexadecimal digit, either case. The prefix argument is accepted
/// in either case, but the hash it is compared against renders in lowercase,
/// so an uppercase digit can never match.
pub open spec fn is_ascii_hexdigit_char(c: char) -> bool {
    (48 <= c as u32 && c as u32 <= 57) || (97 <= c as u32 && c as u32 <= 102) || (65 <= c as u32
        && c as u32 <= 70)
}

/// Every character of `s` is an ASCII hexadecimal digit.
pub open spec fn spec_all_hex(s: Seq<char>) -> bool {
    forall|i: int| 0 <= i < s.len() ==> is_ascii_hexdigit_char(#[trigger] s[i])
}

/// Checks that every character of `s` is an ASCII hexadecimal digit.
pub fn is_all_hex(s: &str) -> (r: bool)
    ensures
        r == spec_all_hex(s@),
{
    let n = s.unicode_len();
    let mut i: usize = 0;
    while i < n
        invariant
            i <= n,
            n == s@.len(),
            forall|j: int| 0 <= j < i ==> is_ascii_hexdigit_char(#[trigger] s@[j]),
        decreases n - i,
    {
        let c = s.get_char(i);
        let u = c as u32;
        if !((48 <= u && u <= 57) || (97 <= u && u <= 102) || (65 <= u && u <= 70)) {
            return false;
        }
        i += 1;
    }
    true
}

/// `Ok(())` exactly when `value` holds, else the given error.
pub fn err_if_false<E>(value: bool, err: E) -> (r: Result<(), E>)
    ensures
        value <==> r is Ok,
        r matches Err(e) ==> e == err,
{
    if value {
        Ok(())
    } else {
        Err(err)
    }
}

/// What the program was asked to do.
pub enum Mode {
    /// Search and print the found hash; read-only.
    Find(String),
    /// Search, write the new object, and move the branch reference.
    Update(String),
    /// Undo the most recent vanity update.
    Revert(),
}

/// Why the arguments were rejected.
#[derive(Debug)]
pub enum Error {
    MissingModeArg(),
    MissingPrefixArg(),
    UnsupportedMode(),
    NonHexPrefix(),
}

pub struct Config {
    pub mode: Mode,
}

impl Config {
    /// Parses the raw arguments, program name first: a mode word, then for
    /// `find` and `update` a required prefix of hexadecimal characters.
    pub fn from_args(args: Vec<String>) -> (r: Result<Config, Error>)
        ensures
            args.deep_view().len() < 2 ==> r matches Err(Error::MissingModeArg()),
            args.deep_view().len() >= 2 && args.deep_view()[1] != "find"@ && args.deep_view()[1]
                != "update"@ && args.deep_view()[1] != "revert"@ ==> r matches Err(
                Error::UnsupportedMode(),
            ),
            args.deep_view().len() >= 2 && args.deep_view()[1] == "revert"@ ==> (r matches Ok(c)
                && c.mode matches Mode::Revert()),
            args.deep_view().len() == 2 && (args.deep_view()[1] == "find"@ || args.deep_view()[1]
                == "update"@) ==> r matches Err(Error::MissingPrefixArg()),
            args.deep_view().len() >= 3 && (args.deep_view()[1] == "find"@ || args.deep_view()[1]
                == "update"@) && !spec_all_hex(args.deep_view()[2]) ==> r matches Err(
                Error::NonHexPrefix(),
            ),
            args.deep_view().len() >= 3 && args.deep_view()[1] == "find"@ && spec_all_hex(
                args.deep_view()[2],
            ) ==> (r matches Ok(c) && c.mode matches Mode::Find(p) && p@ == args.deep_view()[2]),
            args.deep_view().len() >= 3 && args.deep_view()[1] == "update"@ && spec_all_hex(
                args.deep_view()[2],
            ) ==> (r matches Ok(c) && c.mode matches Mode::Update(p) && p@ == args.deep_view()[2]),
    {
        proof {
            reveal_strlit("find");
            reveal_strlit("update");
            reveal_strlit("revert");
            assert("find"@.len() == 4);
            assert("update"@.len() == 6);
            assert("revert"@.len() == 6);
            assert("revert"@[0] == 'r' && "update"@[0] == 'u');
            assert("revert"@ != "find"@);
            assert("revert"@ != "update"@);
            assert("find"@ != "update"@);
        }
        if args.len() < 2 {
            return Err(Error::MissingModeArg());
        }
        let find_word = "find".to_owned();
        let update_word = "update".to_owned();
        let revert_word = "revert".to_owned();
        proof {
            assert(args.deep_view()[1] == args@[1]@);
        }
        if args[1].eq(&revert_word) {
            return Ok(Config { mode: Mode::Revert() });
        }
        let is_find = args[1].eq(&find_word);
        let is_update = args[1].eq(&update_word);
        if !is_find && !is_update {
            return Err(Error::UnsupportedMode());
        }
        if args.len() < 3 {
            return Err(Error::MissingPrefixArg());
        }
        proof {
            assert(args.deep_view()[2] == args@[2]@);
        }
        let prefix = args[2].clone();
        if !is_all_hex(prefix.as_str()) {
            return Err(Error::NonHexPrefix());
        }
        if is_find {
            Ok(Config { mode: Mode::Find(prefix) })
        } else {
            Ok(Config { mode: Mode::Update(prefix) })
        }
    }
}

} // verus!
