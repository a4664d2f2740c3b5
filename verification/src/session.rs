use vstd::prelude::*;

use crate::errors::RepoError;
use crate::model::{str_eq, Catalog, UserRow, UserV};

verus! {

// ---------------------------------------------------------------------------
// Session-cookie parsing: purely syntactic extraction of (identity, token).
// ---------------------------------------------------------------------------

/// A "##" delimiter starts at position `i` of `s`.
pub open spec fn delim_at(s: Seq<char>, i: int) -> bool {
    0 <= i && i + 2 <= s.len() && s[i] == '#' && s[i + 1] == '#'
}

/// Some "##" delimiter occurs in `s`.
pub open spec fn has_delim(s: Seq<char>) -> bool {
    exists|i: int| delim_at(s, i)
}

/// The least position at which "##" occurs in `s`.
pub open spec fn first_delim(s: Seq<char>) -> int {
    choose|i: int| delim_at(s, i) && (forall|k: int| 0 <= k < i ==> !delim_at(s, k))
}

/// The identity segment of a raw session cookie: everything before the first
/// "##", provided a delimiter occurs at all.
pub open spec fn parsed_identity(s: Seq<char>) -> Option<Seq<char>> {
    if has_delim(s) {
        Some(s.subrange(0, first_delim(s)))
    } else {
        None
    }
}

/// The token segment of a raw session cookie: the second segment of splitting
/// on "##", provided a delimiter occurs at all.
pub open spec fn parsed_token(s: Seq<char>) -> Option<Seq<char>> {
    if has_delim(s) {
        let rest = s.subrange(first_delim(s) + 2, s.len() as int);
        if has_delim(rest) {
            Some(rest.subrange(0, first_delim(rest)))
        } else {
            Some(rest)
        }
    } else {
        None
    }
}

/// The character view of an optional string.
pub open spec fn opt_view(o: Option<String>) -> Option<Seq<char>> {
    match o {
        Some(s) => Some(s@),
        None => None,
    }
}

/// The least position of "##" in `s`, if any.
fn find_delim(s: &str) -> (r: Option<usize>)
    ensures
        match r {
            Some(i) => {
                &&& delim_at(s@, i as int)
                &&& has_delim(s@)
                &&& first_delim(s@) == i as int
            },
            None => !has_delim(s@),
        },
{
    let n = s.unicode_len();
    if n < 2 {
        proof {
            if has_delim(s@) {
                let j = choose|j: int| delim_at(s@, j);
                assert(j + 2 <= s@.len());
            }
        }
        return None;
    }
    let mut i: usize = 0;
    while i < n - 1
        invariant
            n == s@.len(),
            2 <= n,
            0 <= i,
            i <= n - 1,
            forall|k: int| 0 <= k < i ==> !delim_at(s@, k),
        decreases n - i,
    {
        if s.get_char(i) == '#' && s.get_char(i + 1) == '#' {
            proof {
                assert(delim_at(s@, i as int));
                assert(delim_at(s@, i as int) && (forall|k: int|
                    0 <= k < i ==> !delim_at(s@, k)));
                let j = first_delim(s@);
                assert(delim_at(s@, j) && (forall|k: int| 0 <= k < j ==> !delim_at(s@, k)));
                if j < i as int {
                    assert(!delim_at(s@, j));
                } else if j > i as int {
                    assert(!delim_at(s@, i as int));
                }
            }
            return Some(i);
        }
        i = i + 1;
    }
    proof {
        if has_delim(s@) {
            let j = choose|j: int| delim_at(s@, j);
            assert(j + 2 <= s@.len());
            assert(!delim_at(s@, j));
        }
    }
    None
}

/// Split a raw session-cookie value on the two-character delimiter "##": when
/// at least two segments exist, the first is the identity and the second the
/// token; otherwise both are absent. Purely syntactic, no validation.
#[verifier::rlimit(100)]
pub fn parse_session_cookie(token_cookie: String) -> (r: (Option<String>, Option<String>))
    ensures
        opt_view(r.0) == parsed_identity(token_cookie@),
        opt_view(r.1) == parsed_token(token_cookie@),
{
    let s = token_cookie.as_str();
    proof {
        assert(s@ == token_cookie@);
    }
    match find_delim(s) {
        None => {
            proof {
                assert(parsed_identity(s@) is None);
                assert(parsed_token(s@) is None);
            }
            (None, None)
        },
        Some(i) => {
            let n = s.unicode_len();
            let user = String::from_str(s.substring_char(0, i));
            proof {
                assert(user@ == s@.subrange(0, first_delim(s@)));
                assert(parsed_identity(s@) == Some(user@));
            }
            let rest = s.substring_char(i + 2, n);
            proof {
                assert(rest@ == s@.subrange(first_delim(s@) + 2, s@.len() as int));
            }
            match find_delim(rest) {
                Some(j) => {
                    let token = String::from_str(rest.substring_char(0, j));
                    proof {
                        assert(token@ == rest@.subrange(0, first_delim(rest@)));
                        assert(parsed_token(s@) == Some(token@));
                    }
                    (Some(user), Some(token))
                },
                None => {
                    let token = String::from_str(rest);
                    proof {
                        assert(parsed_token(s@) == Some(token@));
                    }
                    (Some(user), Some(token))
                },
            }
        },
    }
}

// ---------------------------------------------------------------------------
// Credential lookup over stored user records.
// ---------------------------------------------------------------------------

/// The credential resolver over stored user records.
pub struct UserRepository;

/// The position of the user row carrying `username`, if any.
fn find_user_index(catalog: &Catalog, username: &str) -> (r: Option<usize>)
    requires
        catalog@.wf(),
    ensures
        match r {
            Some(i) => {
                &&& (i as int) < catalog@.users.len()
                &&& catalog@.users[i as int].username == username@
                &&& catalog@.has_user_named(username@)
                &&& catalog@.user_index_named(username@) == i as int
            },
            None => !catalog@.has_user_named(username@),
        },
{
    let n = catalog.users.len();
    let mut i: usize = 0;
    while i < n
        invariant
            catalog@.wf(),
            catalog@.users.len() == n,
            n == catalog.users.len(),
            0 <= i <= n,
            forall|k: int| 0 <= k < i ==> (#[trigger] catalog@.users[k]).username != username@,
        decreases n - i,
    {
        if str_eq(catalog.users[i].username.as_str(), username) {
            proof {
                assert(catalog@.users[i as int].username == username@);
                let j = choose|j: int|
                    0 <= j < catalog@.users.len() && (#[trigger] catalog@.users[j]).username
                        == username@;
                if j != i as int {
                    assert(catalog@.users[j].username == catalog@.users[i as int].username);
                    assert(false);
                }
            }
            return Some(i);
        }
        i = i + 1;
    }
    proof {
        if catalog@.has_user_named(username@) {
            let j = choose|j: int|
                0 <= j < catalog@.users.len() && (#[trigger] catalog@.users[j]).username
                    == username@;
            assert(catalog@.users[j].username != username@);
        }
    }
    None
}

impl UserRepository {
    /// Check a username/password pair against the stored user records: Ok on
    /// an exact match, Unauthorized on an unknown user or a wrong password.
    pub fn try_login(catalog: &Catalog, username: &str, password: &str) -> (r: Result<
        (),
        RepoError,
    >)
        requires
            catalog@.wf(),
        ensures
            (catalog@.has_user_named(username@) && catalog@.password_of(username@) == password@)
                ==> r is Ok,
            !(catalog@.has_user_named(username@) && catalog@.password_of(username@) == password@)
                ==> r matches Err(RepoError::Unauthorized),
    {
        match find_user_index(catalog, username) {
            Some(i) => {
                if str_eq(catalog.users[i].password.as_str(), password) {
                    proof {
                        assert(catalog@.password_of(username@) == catalog@.users[i
                            as int].password);
                    }
                    Ok(())
                } else {
                    Err(RepoError::Unauthorized)
                }
            },
            None => Err(RepoError::Unauthorized),
        }
    }
}

impl Catalog {
    /// Store a user credential row; refused when the username is taken.
    pub fn add_user(&mut self, username: String, password: String) -> (r: bool)
        requires
            old(self)@.wf(),
        ensures
            final(self)@.wf(),
            r == !old(self)@.has_user_named(username@),
            r ==> final(self)@.users == old(self)@.users.push(
                UserV { username: username@, password: password@ },
            ) && final(self)@.recipes == old(self)@.recipes && final(self)@.ingredients == old(
                self,
            )@.ingredients && final(self)@.assocs == old(self)@.assocs,
            !r ==> final(self)@ == old(self)@,
    {
        let ghost cat0 = self@;
        match find_user_index(self, username.as_str()) {
            Some(_) => false,
            None => {
                self.users.push(UserRow { username, password });
                proof {
                    assert(self@.users =~= cat0.users.push(
                        UserV { username: username@, password: password@ },
                    ));
                    assert(self@.recipes =~= cat0.recipes);
                    assert(self@.ingredients =~= cat0.ingredients);
                    assert(self@.assocs =~= cat0.assocs);
                    assert forall|p: int|
                        0 <= p < cat0.users.len() implies (#[trigger] cat0.users[p]).username
                        != username@ by {
                        if cat0.users[p].username == username@ {
                            assert(cat0.has_user_named(username@));
                        }
                    }
                    assert(self@.wf());
                }
                true
            },
        }
    }
}

} // verus!
