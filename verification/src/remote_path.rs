//! Parsing of the `[[username@]hostname:]path` form used for the source and
//! destination arguments.
//!
//! The first colon splits the host part from the path, except for the
//! Windows drive-letter quirk: a single character before the colon followed
//! by an empty remainder or a backslash is taken as a local path.  The first
//! `@` before the colon splits the username from the hostname.

use vstd::prelude::*;

verus! {

use vstd::string::StrSliceExecFns;

/// The first position of `c` in `s`, if any.
pub open spec fn find_char(s: Seq<char>, c: char) -> Option<int>
    decreases s.len(),
{
    if s.len() == 0 {
        None
    } else if s[0] == c {
        Some(0int)
    } else {
        match find_char(s.drop_first(), c) {
            Some(i) => Some(i + 1),
            None => None,
        }
    }
}

/// What [`find_char`] returns is the first occurrence: the character stands
/// there and nowhere earlier; `None` means it stands nowhere.
pub proof fn lemma_find_char(s: Seq<char>, c: char)
    ensures
        match find_char(s, c) {
            Some(i) => 0 <= i < s.len() && s[i] == c && forall|k: int| 0 <= k < i ==> s[k] != c,
            None => forall|k: int| 0 <= k < s.len() ==> s[k] != c,
        },
    decreases s.len(),
{
    if s.len() > 0 && s[0] != c {
        lemma_find_char(s.drop_first(), c);
        match find_char(s.drop_first(), c) {
            Some(i) => {
                assert(s[i + 1] == s.drop_first()[i]);
                assert forall|k: int| 0 <= k < i + 1 implies s[k] != c by {
                    if k > 0 {
                        assert(s.drop_first()[k - 1] != c);
                    }
                }
            },
            None => {
                assert forall|k: int| 0 <= k < s.len() implies s[k] != c by {
                    if k > 0 {
                        assert(s.drop_first()[k - 1] != c);
                    }
                }
            },
        }
    }
}

/// The converse: a first occurrence determines [`find_char`].
pub proof fn lemma_find_char_at(s: Seq<char>, c: char, i: int)
    requires
        0 <= i < s.len(),
        s[i] == c,
        forall|k: int| 0 <= k < i ==> s[k] != c,
    ensures
        find_char(s, c) == Some(i),
{
    lemma_find_char(s, c);
    match find_char(s, c) {
        Some(j) => {
            if j < i {
                assert(s[j] == c);
            }
        },
        None => {
            assert(s[i] != c);
        },
    }
}

/// The result of parsing: username, hostname and path, each possibly empty.
pub open spec fn spec_parse_remote_path(s: Seq<char>) -> Result<
    (Seq<char>, Seq<char>, Seq<char>),
    Seq<char>,
> {
    match find_char(s, ':') {
        None => spec_finish_path(Seq::empty(), Seq::empty(), s),
        Some(ci) => {
            let a = s.take(ci);
            let b = s.skip(ci + 1);
            if a.len() == 1 && (b.len() == 0 || b[0] == '\\') {
                // A Windows drive letter: the whole string is the path.
                spec_finish_path(Seq::empty(), Seq::empty(), s)
            } else {
                match find_char(a, '@') {
                    None => {
                        if a.len() == 0 {
                            Err("Missing hostname"@)
                        } else {
                            spec_finish_path(Seq::empty(), a, b)
                        }
                    },
                    Some(ai) => {
                        let user = a.take(ai);
                        let host = a.skip(ai + 1);
                        if user.len() == 0 {
                            Err("Missing username"@)
                        } else if host.len() == 0 {
                            Err("Missing hostname"@)
                        } else {
                            spec_finish_path(user, host, b)
                        }
                    },
                }
            }
        },
    }
}

/// The final check: an empty path is rejected.
pub open spec fn spec_finish_path(user: Seq<char>, host: Seq<char>, path: Seq<char>) -> Result<
    (Seq<char>, Seq<char>, Seq<char>),
    Seq<char>,
> {
    if path.len() == 0 {
        Err("Path must be specified"@)
    } else {
        Ok((user, host, path))
    }
}

/// Describes a local or remote path, parsed from the source or destination
/// command-line argument.
#[derive(Clone, Debug, Default, PartialEq, Eq)]
pub struct RemotePathDesc {
    pub username: String,
    pub hostname: String,
    /// The path in the remote system's own syntax; deliberately not a
    /// `PathBuf`, since the remote system may use other conventions.
    pub path: String,
}

impl RemotePathDesc {
    /// Parses `[[username@]hostname:]path`, with the Windows drive-letter
    /// special case.
    pub fn from_str(s: &str) -> (r: Result<RemotePathDesc, String>)
        ensures
            match spec_parse_remote_path(s@) {
                Ok((u, h, p)) => r matches Ok(d) && d.username@ == u && d.hostname@ == h
                    && d.path@ == p,
                Err(m) => r matches Err(e) && e@ == m,
            },
    {
        let n = s.unicode_len();
        let colon = find_char_str(s, ':');
        match colon {
            None => Self::finish_path(String::new(), String::new(), s.to_owned()),
            Some(ci) => {
                proof {
                    lemma_find_char(s@, ':');
                }
                let a = s.substring_char(0, ci);
                let b = s.substring_char(ci + 1, n);
                proof {
                    assert(a@ =~= s@.take(ci as int));
                    assert(b@ =~= s@.skip(ci + 1));
                }
                if ci == 1 && (ci + 1 == n || b.get_char(0) == '\\') {
                    return Self::finish_path(String::new(), String::new(), s.to_owned());
                }
                match find_char_str(a, '@') {
                    None => {
                        if ci == 0 {
                            Err("Missing hostname".to_owned())
                        } else {
                            Self::finish_path(String::new(), a.to_owned(), b.to_owned())
                        }
                    },
                    Some(ai) => {
                        proof {
                            lemma_find_char(a@, '@');
                        }
                        let user = a.substring_char(0, ai);
                        let host = a.substring_char(ai + 1, ci);
                        proof {
                            assert(user@ =~= a@.take(ai as int));
                            assert(host@ =~= a@.skip(ai + 1));
                        }
                        if ai == 0 {
                            Err("Missing username".to_owned())
                        } else if ai + 1 == ci {
                            Err("Missing hostname".to_owned())
                        } else {
                            Self::finish_path(user.to_owned(), host.to_owned(), b.to_owned())
                        }
                    },
                }
            },
        }
    }

    fn finish_path(username: String, hostname: String, path: String) -> (r: Result<
        RemotePathDesc,
        String,
    >)
        ensures
            match spec_finish_path(username@, hostname@, path@) {
                Ok((u, h, p)) => r matches Ok(d) && d.username@ == u && d.hostname@ == h
                    && d.path@ == p,
                Err(m) => r matches Err(e) && e@ == m,
            },
    {
        if path.as_str().unicode_len() == 0 {
            Err("Path must be specified".to_owned())
        } else {
            Ok(RemotePathDesc { username, hostname, path })
        }
    }
}

/// The first position of `c` in `s`, by a left-to-right scan.
pub fn find_char_str(s: &str, c: char) -> (r: Option<usize>)
    ensures
        match r {
            Some(i) => find_char(s@, c) == Some(i as int),
            None => find_char(s@, c) is None,
        },
{
    let n = s.unicode_len();
    let mut i: usize = 0;
    while i < n
        invariant
            0 <= i <= n,
            n == s@.len(),
            forall|k: int| 0 <= k < i ==> s@[k] != c,
        decreases n - i,
    {
        if s.get_char(i) == c {
            proof {
                lemma_find_char_at(s@, c, i as int);
            }
            return Some(i);
        }
        i += 1;
    }
    proof {
        lemma_find_char(s@, c);
    }
    None
}

} // verus!
