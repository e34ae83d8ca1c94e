//! Pure format checks for profile names, usernames, email addresses and
//! SSH key file names. Each check is total over arbitrary strings and is
//! specified exactly: it accepts if and only if its spec predicate holds.

use vstd::prelude::*;

verus! {

/// ASCII letter or digit.
pub open spec fn is_alnum(c: char) -> bool {
    ||| '0' as u32 <= c as u32 && c as u32 <= '9' as u32
    ||| 'A' as u32 <= c as u32 && c as u32 <= 'Z' as u32
    ||| 'a' as u32 <= c as u32 && c as u32 <= 'z' as u32
}

/// ASCII letter.
pub open spec fn is_alpha(c: char) -> bool {
    ||| 'A' as u32 <= c as u32 && c as u32 <= 'Z' as u32
    ||| 'a' as u32 <= c as u32 && c as u32 <= 'z' as u32
}

/// Characters allowed in a profile name.
pub open spec fn is_profile_name_char(c: char) -> bool {
    is_alnum(c) || c == '_' || c == '-'
}

/// Characters allowed in a username.
pub open spec fn is_username_char(c: char) -> bool {
    is_alnum(c) || c == '-'
}

/// Characters allowed before the `@` of an email address.
pub open spec fn is_email_local_char(c: char) -> bool {
    is_alnum(c) || c == '.' || c == '_' || c == '%' || c == '+' || c == '-'
}

/// Characters allowed between the `@` and the final `.` of an email address.
pub open spec fn is_email_domain_char(c: char) -> bool {
    is_alnum(c) || c == '.' || c == '-'
}

/// Characters never allowed in an SSH key file name.
pub open spec fn is_forbidden_key_char(c: char) -> bool {
    ||| c == '/'
    ||| c == '\\'
    ||| c == '\u{0}'
    ||| c == '<'
    ||| c == '>'
    ||| c == ':'
    ||| c == '"'
    ||| c == '|'
    ||| c == '?'
    ||| c == '*'
}

/// Whitespace, for the leading/trailing check on key names.
pub open spec fn is_space_char(c: char) -> bool {
    c == ' ' || c == '\t' || c == '\n' || c == '\r' || c == '\u{b}' || c == '\u{c}'
}

/// A profile name: 1 to 50 characters, each a letter, digit, `_` or `-`.
pub open spec fn valid_profile_name(s: Seq<char>) -> bool {
    &&& 1 <= s.len() <= 50
    &&& forall|i: int| 0 <= i < s.len() ==> is_profile_name_char(#[trigger] s[i])
}

/// A username: 1 to 39 characters, letters, digits or `-`, and neither
/// starting nor ending with `-`.
pub open spec fn valid_username(s: Seq<char>) -> bool {
    &&& 1 <= s.len() <= 39
    &&& s[0] != '-'
    &&& s[s.len() - 1] != '-'
    &&& forall|i: int| 0 <= i < s.len() ==> is_username_char(#[trigger] s[i])
}

/// An SSH key file name: 1 to 255 characters, none of the forbidden
/// path/shell characters, and no leading or trailing whitespace.
pub open spec fn valid_ssh_key_name(s: Seq<char>) -> bool {
    &&& 1 <= s.len() <= 255
    &&& forall|i: int| 0 <= i < s.len() ==> !is_forbidden_key_char(#[trigger] s[i])
    &&& !is_space_char(s[0])
    &&& !is_space_char(s[s.len() - 1])
}

/// One admissible reading of `s` as `local@domain.tld`: `a` is the position
/// of the `@`, `d` of the dot before the final all-letter part.
pub open spec fn email_split_ok(s: Seq<char>, a: int, d: int) -> bool {
    &&& 1 <= a
    &&& a + 2 <= d
    &&& d + 3 <= s.len()
    &&& s[a] == '@'
    &&& s[d] == '.'
    &&& forall|i: int| 0 <= i < a ==> is_email_local_char(#[trigger] s[i])
    &&& forall|i: int| a < i < d ==> is_email_domain_char(#[trigger] s[i])
    &&& forall|i: int| d < i < s.len() ==> is_alpha(#[trigger] s[i])
}

/// An email address of the shape `local@domain.tld`: a nonempty local part,
/// `@`, a nonempty domain part, `.`, and at least two letters.
pub open spec fn valid_email(s: Seq<char>) -> bool {
    exists|a: int, d: int| email_split_ok(s, a, d)
}

/// The format checks, grouped as one façade.
pub struct Validator;

fn ch_is_alnum(c: char) -> (r: bool)
    ensures
        r == is_alnum(c),
{
    let u = c as u32;
    ('0' as u32 <= u && u <= '9' as u32) || ('A' as u32 <= u && u <= 'Z' as u32) || ('a' as u32
        <= u && u <= 'z' as u32)
}

fn ch_is_alpha(c: char) -> (r: bool)
    ensures
        r == is_alpha(c),
{
    let u = c as u32;
    ('A' as u32 <= u && u <= 'Z' as u32) || ('a' as u32 <= u && u <= 'z' as u32)
}

fn ch_is_profile_name(c: char) -> (r: bool)
    ensures
        r == is_profile_name_char(c),
{
    ch_is_alnum(c) || c == '_' || c == '-'
}

fn ch_is_username(c: char) -> (r: bool)
    ensures
        r == is_username_char(c),
{
    ch_is_alnum(c) || c == '-'
}

fn ch_is_email_local(c: char) -> (r: bool)
    ensures
        r == is_email_local_char(c),
{
    ch_is_alnum(c) || c == '.' || c == '_' || c == '%' || c == '+' || c == '-'
}

fn ch_is_email_domain(c: char) -> (r: bool)
    ensures
        r == is_email_domain_char(c),
{
    ch_is_alnum(c) || c == '.' || c == '-'
}

fn ch_is_forbidden_key(c: char) -> (r: bool)
    ensures
        r == is_forbidden_key_char(c),
{
    c == '/' || c == '\\' || c == '\u{0}' || c == '<' || c == '>' || c == ':' || c == '"' || c
        == '|' || c == '?' || c == '*'
}

pub(crate) fn ch_is_space(c: char) -> (r: bool)
    ensures
        r == is_space_char(c),
{
    c == ' ' || c == '\t' || c == '\n' || c == '\r' || c == '\u{b}' || c == '\u{c}'
}

impl Validator {
    /// Accepts exactly the strings satisfying [`valid_profile_name`].
    pub fn validate_profile_name(name: &str) -> (r: bool)
        ensures
            r == valid_profile_name(name@),
    {
        let n = name.unicode_len();
        if n < 1 || n > 50 {
            return false;
        }
        let mut i: usize = 0;
        while i < n
            invariant
                n == name@.len(),
                i <= n,
                forall|j: int| 0 <= j < i ==> is_profile_name_char(#[trigger] name@[j]),
            decreases n - i,
        {
            if !ch_is_profile_name(name.get_char(i)) {
                return false;
            }
            i = i + 1;
        }
        true
    }

    /// Accepts exactly the strings satisfying [`valid_username`].
    pub fn validate_username(username: &str) -> (r: bool)
        ensures
            r == valid_username(username@),
    {
        let n = username.unicode_len();
        if n < 1 || n > 39 {
            return false;
        }
        if username.get_char(0) == '-' || username.get_char(n - 1) == '-' {
            return false;
        }
        let mut i: usize = 0;
        while i < n
            invariant
                n == username@.len(),
                i <= n,
                forall|j: int| 0 <= j < i ==> is_username_char(#[trigger] username@[j]),
            decreases n - i,
        {
            if !ch_is_username(username.get_char(i)) {
                return false;
            }
            i = i + 1;
        }
        true
    }

    /// Accepts exactly the strings satisfying [`valid_ssh_key_name`].
    pub fn validate_ssh_key_name(key_name: &str) -> (r: bool)
        ensures
            r == valid_ssh_key_name(key_name@),
    {
        let n = key_name.unicode_len();
        if n < 1 || n > 255 {
            return false;
        }
        if ch_is_space(key_name.get_char(0)) || ch_is_space(key_name.get_char(n - 1)) {
            return false;
        }
        let mut i: usize = 0;
        while i < n
            invariant
                n == key_name@.len(),
                i <= n,
                forall|j: int| 0 <= j < i ==> !is_forbidden_key_char(#[trigger] key_name@[j]),
            decreases n - i,
        {
            if ch_is_forbidden_key(key_name.get_char(i)) {
                return false;
            }
            i = i + 1;
        }
        true
    }

    /// Accepts exactly the strings satisfying [`valid_email`].
    pub fn validate_email(email: &str) -> (r: bool)
        ensures
            r == valid_email(email@),
    {
        let n = email.unicode_len();
        // The `@` of any admissible reading is the first `@` of the string,
        // because local-part characters exclude `@`.
        let fa = match crate::text::find_first_char(email, '@') {
            Some(k) => k,
            None => {
                proof {
                    assert(!valid_email(email@)) by {
                        if valid_email(email@) {
                            let (a, d) = choose|a: int, d: int| email_split_ok(email@, a, d);
                            assert(email@[a] == '@');
                        }
                    }
                }
                return false;
            },
        };
        if fa == 0 {
            proof {
                assert(!valid_email(email@)) by {
                    if valid_email(email@) {
                        let (a, d) = choose|a: int, d: int| email_split_ok(email@, a, d);
                        assert(is_email_local_char(email@[0]));
                    }
                }
            }
            return false;
        }
        let mut i: usize = 0;
        while i < fa
            invariant
                n == email@.len(),
                fa < n,
                email@[fa as int] == '@',
                forall|j: int| 0 <= j < fa ==> email@[j] != '@',
                i <= fa,
                forall|j: int| 0 <= j < i ==> is_email_local_char(#[trigger] email@[j]),
            decreases fa - i,
        {
            if !ch_is_email_local(email.get_char(i)) {
                proof {
                    lemma_email_at_is_first(email@, fa as int);
                    assert(!valid_email(email@)) by {
                        if valid_email(email@) {
                            let (a, d) = choose|a: int, d: int| email_split_ok(email@, a, d);
                            assert(is_email_local_char(email@[i as int]));
                        }
                    }
                }
                return false;
            }
            i = i + 1;
        }
        // The dot of any admissible reading is the last `.` of the string,
        // because the trailing letters exclude `.`.
        let ld = match crate::text::find_last_char(email, '.') {
            Some(k) => k,
            None => {
                proof {
                    assert(!valid_email(email@)) by {
                        if valid_email(email@) {
                            let (a, d) = choose|a: int, d: int| email_split_ok(email@, a, d);
                            assert(email@[d] == '.');
                        }
                    }
                }
                return false;
            },
        };
        if ld < 2 || ld - 2 < fa || n - ld < 3 {
            proof {
                lemma_email_at_is_first(email@, fa as int);
                lemma_email_dot_is_last(email@, ld as int);
                assert(!valid_email(email@)) by {
                    if valid_email(email@) {
                        let (a, d) = choose|a: int, d: int| email_split_ok(email@, a, d);
                    }
                }
            }
            return false;
        }
        let mut i: usize = fa + 1;
        while i < ld
            invariant
                n == email@.len(),
                fa < n,
                ld < n,
                fa + 2 <= ld,
                ld + 3 <= n,
                email@[fa as int] == '@',
                email@[ld as int] == '.',
                forall|j: int| 0 <= j < fa ==> email@[j] != '@',
                forall|j: int| ld < j < n ==> email@[j] != '.',
                fa < i <= ld,
                forall|j: int| fa < j < i ==> is_email_domain_char(#[trigger] email@[j]),
            decreases ld - i,
        {
            if !ch_is_email_domain(email.get_char(i)) {
                proof {
                    lemma_email_at_is_first(email@, fa as int);
                    lemma_email_dot_is_last(email@, ld as int);
                    assert(!valid_email(email@)) by {
                        if valid_email(email@) {
                            let (a, d) = choose|a: int, d: int| email_split_ok(email@, a, d);
                            assert(is_email_domain_char(email@[i as int]));
                        }
                    }
                }
                return false;
            }
            i = i + 1;
        }
        let mut i: usize = ld + 1;
        while i < n
            invariant
                n == email@.len(),
                fa < n,
                ld < n,
                fa + 2 <= ld,
                ld + 3 <= n,
                email@[fa as int] == '@',
                email@[ld as int] == '.',
                forall|j: int| 0 <= j < fa ==> email@[j] != '@',
                forall|j: int| ld < j < n ==> email@[j] != '.',
                forall|j: int| 0 <= j < fa ==> is_email_local_char(#[trigger] email@[j]),
                forall|j: int| fa < j < ld ==> is_email_domain_char(#[trigger] email@[j]),
                ld < i <= n,
                forall|j: int| ld < j < i ==> is_alpha(#[trigger] email@[j]),
            decreases n - i,
        {
            if !ch_is_alpha(email.get_char(i)) {
                proof {
                    lemma_email_at_is_first(email@, fa as int);
                    lemma_email_dot_is_last(email@, ld as int);
                    assert(!valid_email(email@)) by {
                        if valid_email(email@) {
                            let (a, d) = choose|a: int, d: int| email_split_ok(email@, a, d);
                            assert(is_alpha(email@[i as int]));
                        }
                    }
                }
                return false;
            }
            i = i + 1;
        }
        proof {
            assert(email_split_ok(email@, fa as int, ld as int));
        }
        true
    }
}

/// In any admissible reading of `s`, the `@` stands at `fa`, the first `@`.
proof fn lemma_email_at_is_first(s: Seq<char>, fa: int)
    requires
        0 <= fa < s.len(),
        s[fa] == '@',
        forall|j: int| 0 <= j < fa ==> s[j] != '@',
    ensures
        forall|a: int, d: int| email_split_ok(s, a, d) ==> a == fa,
{
    assert forall|a: int, d: int| email_split_ok(s, a, d) implies a == fa by {
        if a < fa {
            assert(s[a] == '@');
        } else if a > fa {
            assert(is_email_local_char(s[fa]));
        }
    }
}

/// In any admissible reading of `s`, the dot stands at `ld`, the last `.`.
proof fn lemma_email_dot_is_last(s: Seq<char>, ld: int)
    requires
        0 <= ld < s.len(),
        s[ld] == '.',
        forall|j: int| ld < j < s.len() ==> s[j] != '.',
    ensures
        forall|a: int, d: int| email_split_ok(s, a, d) ==> d == ld,
{
    assert forall|a: int, d: int| email_split_ok(s, a, d) implies d == ld by {
        if d < ld {
            assert(is_alpha(s[ld]));
        } else if d > ld {
            assert(s[d] == '.');
        }
    }
}

} // verus!
