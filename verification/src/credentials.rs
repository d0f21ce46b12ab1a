//! The credential file's format: three lines — user, token, repository
//! path. Reading and writing the file itself is the surrounding
//! application's concern; this module only encodes and decodes the text.

use vstd::prelude::*;
use vstd::string::StrSliceExecFns;
use vstd::string::StringExecFns;

use crate::text::{find_newline, lines_from, split_lines, trim_range, trim_spec};

verus! {

/// The text of line `i` of a credential file, trimmed; empty where the
/// file has no such line.
pub open spec fn credential_part(content: Seq<char>, i: int) -> Seq<char> {
    let parts = split_lines(content);
    if 0 <= i < parts.len() {
        trim_spec(parts[i])
    } else {
        Seq::empty()
    }
}

/// Cuts the trimmed text of the range `lo .. hi` out of the document.
fn trimmed_range(s: &str, lo: usize, hi: usize, n: usize) -> (r: String)
    requires
        lo <= hi <= n,
        n == s@.len(),
    ensures
        r@ == trim_spec(s@.subrange(lo as int, hi as int)),
{
    let (a, b) = trim_range(s, lo, hi, n);
    s.substring_char(a, b).to_owned()
}

/// Decodes a credential file: its first three lines, each trimmed, as
/// user, token and repository path; empty strings where lines are
/// missing.
pub fn parse_credentials(content: &str) -> (r: (String, String, String))
    ensures
        r.0@ == credential_part(content@, 0),
        r.1@ == credential_part(content@, 1),
        r.2@ == credential_part(content@, 2),
{
    let n = content.unicode_len();
    let ghost lines = split_lines(content@);
    match find_newline(content, 0, n) {
        None => {
            proof {
                assert(lines == seq![content@.subrange(0, n as int)]);
                assert(lines[0] == content@.subrange(0, n as int));
            }
            let part0 = trimmed_range(content, 0, n, n);
            (part0, String::new(), String::new())
        },
        Some(e0) => {
            let ghost rest1 = lines_from(content@, e0 + 1);
            proof {
                assert(lines == seq![content@.subrange(0, e0 as int)] + rest1);
                assert(lines[0] == content@.subrange(0, e0 as int));
            }
            let part0 = trimmed_range(content, 0, e0, n);
            match find_newline(content, e0 + 1, n) {
                None => {
                    proof {
                        assert(rest1 == seq![content@.subrange(e0 + 1, n as int)]);
                        assert(lines.len() == 2 && lines[1] == content@.subrange(e0 + 1, n as int));
                    }
                    let part1 = trimmed_range(content, e0 + 1, n, n);
                    (part0, part1, String::new())
                },
                Some(e1) => {
                    let ghost rest2 = lines_from(content@, e1 + 1);
                    proof {
                        assert(rest1 == seq![content@.subrange(e0 + 1, e1 as int)] + rest2);
                        assert(lines[1] == content@.subrange(e0 + 1, e1 as int));
                    }
                    let part1 = trimmed_range(content, e0 + 1, e1, n);
                    match find_newline(content, e1 + 1, n) {
                        None => {
                            proof {
                                assert(rest2 == seq![content@.subrange(e1 + 1, n as int)]);
                                assert(lines[2] == content@.subrange(e1 + 1, n as int));
                            }
                            let part2 = trimmed_range(content, e1 + 1, n, n);
                            (part0, part1, part2)
                        },
                        Some(e2) => {
                            proof {
                                assert(rest2 == seq![content@.subrange(e1 + 1, e2 as int)]
                                    + lines_from(content@, e2 + 1));
                                assert(lines[2] == content@.subrange(e1 + 1, e2 as int));
                            }
                            let part2 = trimmed_range(content, e1 + 1, e2, n);
                            (part0, part1, part2)
                        },
                    }
                },
            }
        },
    }
}

/// Encodes a credential file: the three fields on three lines.
pub fn encode_credentials(user: &str, token: &str, repo_path: &str) -> (r: String)
    ensures
        r@ == user@ + "\n"@ + token@ + "\n"@ + repo_path@,
{
    let mut s = user.to_owned();
    s.append("\n");
    s.append(token);
    s.append("\n");
    s.append(repo_path);
    proof {
        assert(s@ =~= user@ + "\n"@ + token@ + "\n"@ + repo_path@);
    }
    s
}

} // verus!
