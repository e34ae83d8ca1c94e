//! The canonical JSON text of the profile collection. The collection is
//! always written in one fixed form — two-space indentation, fields in
//! declaration order, strings with the standard escapes — and read back
//! from exactly that form; anything else is corrupted. Rendering and
//! parsing are inverse, which the round-trip law at the end states.

use vstd::prelude::*;

use crate::profile::ProfileView;
use crate::storage::StorageDataView;
use crate::error::ProfileError;
use crate::profile::Profile;
use crate::storage::StorageData;
use crate::text::{has_prefix, push_char};

verus! {

/// The lowercase hexadecimal digit for `n`.
pub open spec fn hex_digit(n: int) -> char {
    if n == 0 {
        '0'
    } else if n == 1 {
        '1'
    } else if n == 2 {
        '2'
    } else if n == 3 {
        '3'
    } else if n == 4 {
        '4'
    } else if n == 5 {
        '5'
    } else if n == 6 {
        '6'
    } else if n == 7 {
        '7'
    } else if n == 8 {
        '8'
    } else if n == 9 {
        '9'
    } else if n == 10 {
        'a'
    } else if n == 11 {
        'b'
    } else if n == 12 {
        'c'
    } else if n == 13 {
        'd'
    } else if n == 14 {
        'e'
    } else {
        'f'
    }
}

/// The value of a lowercase hexadecimal digit; 16 when `c` is none.
pub open spec fn hex_val(c: char) -> int {
    if c == '0' {
        0
    } else if c == '1' {
        1
    } else if c == '2' {
        2
    } else if c == '3' {
        3
    } else if c == '4' {
        4
    } else if c == '5' {
        5
    } else if c == '6' {
        6
    } else if c == '7' {
        7
    } else if c == '8' {
        8
    } else if c == '9' {
        9
    } else if c == 'a' {
        10
    } else if c == 'b' {
        11
    } else if c == 'c' {
        12
    } else if c == 'd' {
        13
    } else if c == 'e' {
        14
    } else if c == 'f' {
        15
    } else {
        16
    }
}

/// A lowercase hexadecimal digit.
pub open spec fn is_hex_char(c: char) -> bool {
    hex_val(c) < 16
}

/// How one character is written inside a JSON string: the named escapes,
/// `\u00XX` for the remaining control characters, the character itself
/// otherwise.
pub open spec fn esc_char(c: char) -> Seq<char> {
    if c == '"' {
        seq!['\\', '"']
    } else if c == '\\' {
        seq!['\\', '\\']
    } else if c == '\n' {
        seq!['\\', 'n']
    } else if c == '\r' {
        seq!['\\', 'r']
    } else if c == '\t' {
        seq!['\\', 't']
    } else if c == '\u{8}' {
        seq!['\\', 'b']
    } else if c == '\u{c}' {
        seq!['\\', 'f']
    } else if (c as u32) < 32 {
        seq!['\\', 'u', '0', '0', hex_digit(c as u32 as int / 16), hex_digit(c as u32 as int % 16)]
    } else {
        seq![c]
    }
}

/// A whole string, escaped.
pub open spec fn escape_string(s: Seq<char>) -> Seq<char>
    decreases s.len(),
{
    if s.len() == 0 {
        Seq::empty()
    } else {
        esc_char(s[0]) + escape_string(s.skip(1))
    }
}

/// What a two-character escape denotes.
pub open spec fn unesc_char(e: char) -> char {
    if e == '"' {
        '"'
    } else if e == '\\' {
        '\\'
    } else if e == '/' {
        '/'
    } else if e == 'n' {
        '\n'
    } else if e == 'r' {
        '\r'
    } else if e == 't' {
        '\t'
    } else if e == 'b' {
        '\u{8}'
    } else {
        '\u{c}'
    }
}

/// `e` may follow a backslash as a two-character escape.
pub open spec fn is_simple_escape(e: char) -> bool {
    e == '"' || e == '\\' || e == '/' || e == 'n' || e == 'r' || e == 't' || e == 'b' || e == 'f'
}

/// The character written `\u00XX`.
pub open spec fn char_from_hex(h: char, l: char) -> char {
    (((16 * hex_val(h) + hex_val(l)) as u8) as char)
}

/// Read a string body, starting right after the opening quote: the content
/// up to the closing quote, and what follows it. Unescaped control
/// characters, bad escapes and a missing quote fail.
pub open spec fn parse_quoted(s: Seq<char>) -> Option<(Seq<char>, Seq<char>)>
    decreases s.len(),
{
    if s.len() == 0 {
        None
    } else if s[0] == '"' {
        Some((Seq::empty(), s.skip(1)))
    } else if s[0] == '\\' {
        if s.len() < 2 {
            None
        } else if is_simple_escape(s[1]) {
            match parse_quoted(s.skip(2)) {
                Some(tr) => Some((seq![unesc_char(s[1])] + tr.0, tr.1)),
                None => None,
            }
        } else if s[1] == 'u' {
            if s.len() < 6 {
                None
            } else if s[2] == '0' && s[3] == '0' && is_hex_char(s[4]) && is_hex_char(s[5]) {
                match parse_quoted(s.skip(6)) {
                    Some(tr) => Some((seq![char_from_hex(s[4], s[5])] + tr.0, tr.1)),
                    None => None,
                }
            } else {
                None
            }
        } else {
            None
        }
    } else if (s[0] as u32) < 32 {
        None
    } else {
        match parse_quoted(s.skip(1)) {
            Some(tr) => Some((seq![s[0]] + tr.0, tr.1)),
            None => None,
        }
    }
}

/// Consume an exact literal prefix.
pub open spec fn expect_prefix(s: Seq<char>, lit: Seq<char>) -> Option<Seq<char>> {
    if has_prefix(s, lit) {
        Some(s.skip(lit.len() as int))
    } else {
        None
    }
}

/// A consumed literal comes straight off the front.
proof fn lemma_expect_concat(lit: Seq<char>, tail: Seq<char>)
    ensures
        expect_prefix(lit + tail, lit) == Some(tail),
{
    assert((lit + tail).subrange(0, lit.len() as int) =~= lit);
    assert((lit + tail).skip(lit.len() as int) =~= tail);
}

/// Escaping then reading a string body gives the string back, with the
/// closing quote consumed.
proof fn lemma_parse_quoted_escape(x: Seq<char>, rest: Seq<char>)
    ensures
        parse_quoted(escape_string(x) + seq!['"'] + rest) == Some((x, rest)),
    decreases x.len(),
{
    if x.len() == 0 {
        assert(escape_string(x) + seq!['"'] + rest =~= seq!['"'] + rest);
        assert((seq!['"'] + rest)[0] == '"');
        assert((seq!['"'] + rest).skip(1) =~= rest);
        assert(x =~= Seq::<char>::empty());
    } else {
        let c = x[0];
        let e = esc_char(c);
        let s = escape_string(x) + seq!['"'] + rest;
        let srest = escape_string(x.skip(1)) + seq!['"'] + rest;
        assert(escape_string(x) == e + escape_string(x.skip(1)));
        assert(s =~= e + srest);
        lemma_parse_quoted_escape(x.skip(1), rest);
        if c == '"' || c == '\\' || c == '\n' || c == '\r' || c == '\t' || c == '\u{8}' || c
            == '\u{c}' {
            assert(s[0] == '\\');
            assert(s.len() >= 2);
            assert(s[1] == e[1]);
            assert(is_simple_escape(s[1]));
            assert(unesc_char(s[1]) == c);
            assert(s.skip(2) =~= srest);
            assert(seq![c] + x.skip(1) =~= x);
        } else if (c as u32) < 32 {
            let v = c as u32 as int;
            assert(s[0] == '\\');
            assert(s.len() >= 6);
            assert(s[1] == 'u');
            assert(s[2] == '0');
            assert(s[3] == '0');
            assert(s[4] == hex_digit(v / 16));
            assert(s[5] == hex_digit(v % 16));
            assert(!is_simple_escape('u'));
            assert(is_hex_char(s[4]) && hex_val(s[4]) == v / 16);
            assert(is_hex_char(s[5]) && hex_val(s[5]) == v % 16);
            assert(16 * (v / 16) + v % 16 == v);
            assert(char_from_hex(s[4], s[5]) == c) by {
                vstd::utf8::char_u32_cast(c, c as u32);
                assert(((v as u8) as u32) == c as u32);
                assert(((v as u8) as char) == c);
            }
            assert(s.skip(6) =~= srest);
            assert(seq![c] + x.skip(1) =~= x);
        } else {
            assert(e =~= seq![c]);
            assert(s[0] == c);
            assert(s[0] != '"' && s[0] != '\\');
            assert(s.skip(1) =~= srest);
            assert(seq![c] + x.skip(1) =~= x);
        }
    }
}


/// One profile object, rendered at its place in the list.
pub open spec fn render_profile(p: ProfileView) -> Seq<char> {
    "    {\n      \"name\": \""@ + escape_string(p.name) + seq!['"']
        + ",\n      \"username\": \""@ + escape_string(p.username) + seq!['"']
        + ",\n      \"email\": \""@ + escape_string(p.email) + seq!['"']
        + ",\n      \"ssh_key_name\": \""@ + escape_string(p.ssh_key_name) + seq!['"']
        + "\n    }"@
}

/// The profile entries, comma-separated, with the closing bracket.
pub open spec fn render_profile_list(ps: Seq<ProfileView>) -> Seq<char>
    decreases ps.len(),
{
    if ps.len() == 0 {
        Seq::empty()
    } else if ps.len() == 1 {
        render_profile(ps[0]) + "\n  ]"@
    } else {
        render_profile(ps[0]) + ",\n"@ + render_profile_list(ps.skip(1))
    }
}

/// The whole profiles array.
pub open spec fn render_profiles_value(ps: Seq<ProfileView>) -> Seq<char> {
    if ps.len() == 0 {
        "[]"@
    } else {
        "[\n"@ + render_profile_list(ps)
    }
}

/// The whole collection, in its one canonical form.
pub open spec fn render_collection_spec(v: StorageDataView) -> Seq<char> {
    "{\n  \"version\": \""@ + escape_string(v.version) + seq!['"']
        + ",\n  \"profiles\": "@ + render_profiles_value(v.profiles)
        + ",\n  \"last_modified\": \""@ + escape_string(v.last_modified) + seq!['"']
        + "\n}"@
}

/// Read one profile object.
pub open spec fn parse_profile_entry(s: Seq<char>) -> Option<(ProfileView, Seq<char>)> {
    match expect_prefix(s, "    {\n      \"name\": \""@) {
        None => None,
        Some(s1) => match parse_quoted(s1) {
            None => None,
            Some(nr) => match expect_prefix(nr.1, ",\n      \"username\": \""@) {
                None => None,
                Some(s2) => match parse_quoted(s2) {
                    None => None,
                    Some(ur) => match expect_prefix(ur.1, ",\n      \"email\": \""@) {
                        None => None,
                        Some(s3) => match parse_quoted(s3) {
                            None => None,
                            Some(er) => match expect_prefix(
                                er.1, ",\n      \"ssh_key_name\": \""@) {
                                None => None,
                                Some(s4) => match parse_quoted(s4) {
                                    None => None,
                                    Some(kr) => match expect_prefix(kr.1, "\n    }"@) {
                                        None => None,
                                        Some(s5) => Some(
                                            (
                                                ProfileView {
                                                    name: nr.0,
                                                    username: ur.0,
                                                    email: er.0,
                                                    ssh_key_name: kr.0,
                                                },
                                                s5,
                                            ),
                                        ),
                                    },
                                },
                            },
                        },
                    },
                },
            },
        },
    }
}

/// Read the profile entries up to and including the closing bracket. The
/// length guard never fires — an entry always consumes text — and only
/// justifies the recursion.
pub open spec fn parse_profile_list(s: Seq<char>) -> Option<(Seq<ProfileView>, Seq<char>)>
    decreases s.len(),
{
    match parse_profile_entry(s) {
        None => None,
        Some(pr) => {
            if pr.1.len() >= s.len() {
                None
            } else if pr.1.len() >= 2 && has_prefix(pr.1, ",\n"@) {
                match parse_profile_list(pr.1.skip(2)) {
                    None => None,
                    Some(lr) => Some((seq![pr.0] + lr.0, lr.1)),
                }
            } else {
                match expect_prefix(pr.1, "\n  ]"@) {
                    None => None,
                    Some(s1) => Some((seq![pr.0], s1)),
                }
            }
        },
    }
}

/// Read the profiles array.
pub open spec fn parse_profiles_value(s: Seq<char>) -> Option<(Seq<ProfileView>, Seq<char>)> {
    if has_prefix(s, "[]"@) {
        Some((Seq::empty(), s.skip(2)))
    } else if has_prefix(s, "[\n"@) {
        parse_profile_list(s.skip(2))
    } else {
        None
    }
}

/// Read a whole collection; the text must end with it.
pub open spec fn parse_collection_spec(s: Seq<char>) -> Option<StorageDataView> {
    match expect_prefix(s, "{\n  \"version\": \""@) {
        None => None,
        Some(s1) => match parse_quoted(s1) {
            None => None,
            Some(vr) => match expect_prefix(vr.1, ",\n  \"profiles\": "@) {
                None => None,
                Some(s2) => match parse_profiles_value(s2) {
                    None => None,
                    Some(pr) => match expect_prefix(pr.1, ",\n  \"last_modified\": \""@) {
                        None => None,
                        Some(s3) => match parse_quoted(s3) {
                            None => None,
                            Some(lr) => match expect_prefix(lr.1, "\n}"@) {
                                None => None,
                                Some(s4) => if s4.len() == 0 {
                                    Some(
                                        StorageDataView {
                                            version: vr.0,
                                            profiles: pr.0,
                                            last_modified: lr.0,
                                        },
                                    )
                                } else {
                                    None
                                },
                            },
                        },
                    },
                },
            },
        },
    }
}


/// Reading a rendered profile object gives the profile back.
proof fn lemma_parse_render_profile(p: ProfileView, rest: Seq<char>)
    ensures
        parse_profile_entry(render_profile(p) + rest) == Some((p, rest)),
        render_profile(p).len() > 0,
{
    reveal_strlit("    {\n      \"name\": \"");
    let lit0 = "    {\n      \"name\": \""@;
    let lit1 = ",\n      \"username\": \""@;
    let lit2 = ",\n      \"email\": \""@;
    let lit3 = ",\n      \"ssh_key_name\": \""@;
    let lit4 = "\n    }"@;
    let q = seq!['"'];
    let e4 = lit4 + rest;
    let d4 = escape_string(p.ssh_key_name) + q + e4;
    let e3 = lit3 + d4;
    let d3 = escape_string(p.email) + q + e3;
    let e2 = lit2 + d3;
    let d2 = escape_string(p.username) + q + e2;
    let e1 = lit1 + d2;
    let d1 = escape_string(p.name) + q + e1;
    let s = render_profile(p) + rest;
    assert(s =~= lit0 + d1);
    lemma_expect_concat(lit0, d1);
    lemma_parse_quoted_escape(p.name, e1);
    assert(d1 =~= escape_string(p.name) + q + e1);
    lemma_expect_concat(lit1, d2);
    lemma_parse_quoted_escape(p.username, e2);
    lemma_expect_concat(lit2, d3);
    lemma_parse_quoted_escape(p.email, e3);
    lemma_expect_concat(lit3, d4);
    lemma_parse_quoted_escape(p.ssh_key_name, e4);
    lemma_expect_concat(lit4, rest);
    assert(parse_profile_entry(s) == Some(
        (
            ProfileView {
                name: p.name,
                username: p.username,
                email: p.email,
                ssh_key_name: p.ssh_key_name,
            },
            rest,
        ),
    ));
    assert(ProfileView {
        name: p.name,
        username: p.username,
        email: p.email,
        ssh_key_name: p.ssh_key_name,
    } =~= p);
}

/// Reading a rendered nonempty entry list gives the profiles back, with the
/// closing bracket consumed.
#[verifier::rlimit(60)]
proof fn lemma_parse_render_list(ps: Seq<ProfileView>, rest: Seq<char>)
    requires
        ps.len() >= 1,
    ensures
        parse_profile_list(render_profile_list(ps) + rest) == Some((ps, rest)),
        render_profile_list(ps).len() > 0,
    decreases ps.len(),
{
    reveal_strlit(",\n");
    reveal_strlit("\n  ]");
    let s = render_profile_list(ps) + rest;
    if ps.len() == 1 {
        let tail = "\n  ]"@ + rest;
        assert(s =~= render_profile(ps[0]) + tail);
        lemma_parse_render_profile(ps[0], tail);
        assert(tail.len() < s.len());
        assert(tail[0] == '\n');
        assert(!has_prefix(tail, ",\n"@)) by {
            if has_prefix(tail, ",\n"@) {
                assert(tail.subrange(0, 2)[0] == tail[0]);
            }
        }
        lemma_expect_concat("\n  ]"@, rest);
        assert(tail =~= "\n  ]"@ + rest);
        assert(seq![ps[0]] =~= ps);
    } else {
        let tail = ",\n"@ + (render_profile_list(ps.skip(1)) + rest);
        assert(s =~= render_profile(ps[0]) + tail);
        lemma_parse_render_profile(ps[0], tail);
        assert(tail.len() < s.len());
        assert(tail.len() >= 2);
        assert(has_prefix(tail, ",\n"@)) by {
            assert(tail.subrange(0, 2) =~= ",\n"@);
        }
        assert(tail.skip(2) =~= render_profile_list(ps.skip(1)) + rest);
        lemma_parse_render_list(ps.skip(1), rest);
        assert(seq![ps[0]] + ps.skip(1) =~= ps);
    }
}

/// Reading a rendered profiles array gives the profiles back.
proof fn lemma_parse_render_profiles_value(ps: Seq<ProfileView>, rest: Seq<char>)
    ensures
        parse_profiles_value(render_profiles_value(ps) + rest) == Some((ps, rest)),
{
    reveal_strlit("[]");
    reveal_strlit("[\n");
    let s = render_profiles_value(ps) + rest;
    if ps.len() == 0 {
        assert(s =~= "[]"@ + rest);
        assert(has_prefix(s, "[]"@)) by {
            assert(s.subrange(0, 2) =~= "[]"@);
        }
        assert(s.skip(2) =~= rest);
        assert(ps =~= Seq::<ProfileView>::empty());
    } else {
        assert(s =~= "[\n"@ + (render_profile_list(ps) + rest));
        assert(s[1] == '\n');
        assert(!has_prefix(s, "[]"@)) by {
            if has_prefix(s, "[]"@) {
                assert(s.subrange(0, 2)[1] == s[1]);
            }
        }
        assert(has_prefix(s, "[\n"@)) by {
            assert(s.subrange(0, 2) =~= "[\n"@);
        }
        assert(s.skip(2) =~= render_profile_list(ps) + rest);
        lemma_parse_render_list(ps, rest);
    }
}

/// The storage round trip: a rendered collection parses back to exactly the
/// collection that was rendered, whatever its contents.
pub proof fn lemma_collection_round_trip(v: StorageDataView)
    ensures
        parse_collection_spec(render_collection_spec(v)) == Some(v),
{
    let lit0 = "{\n  \"version\": \""@;
    let lit1 = ",\n  \"profiles\": "@;
    let lit2 = ",\n  \"last_modified\": \""@;
    let lit3 = "\n}"@;
    let q = seq!['"'];
    let empty = Seq::<char>::empty();
    let e3 = lit3;
    let d3 = escape_string(v.last_modified) + q + e3;
    let e2 = lit2 + d3;
    let d2 = render_profiles_value(v.profiles) + e2;
    let e1 = lit1 + d2;
    let d1 = escape_string(v.version) + q + e1;
    let s = render_collection_spec(v);
    assert(s =~= lit0 + d1);
    lemma_expect_concat(lit0, d1);
    lemma_parse_quoted_escape(v.version, e1);
    lemma_expect_concat(lit1, d2);
    lemma_parse_render_profiles_value(v.profiles, e2);
    lemma_expect_concat(lit2, d3);
    lemma_parse_quoted_escape(v.last_modified, e3);
    lemma_expect_concat(lit3, empty);
    assert(lit3 + empty =~= lit3);
    assert(parse_collection_spec(s) == Some(
        StorageDataView {
            version: v.version,
            profiles: v.profiles,
            last_modified: v.last_modified,
        },
    ));
    assert(StorageDataView {
        version: v.version,
        profiles: v.profiles,
        last_modified: v.last_modified,
    } =~= v);
}


fn hex_char_exec(n: u32) -> (c: char)
    requires
        n < 16,
    ensures
        c == hex_digit(n as int),
{
    if n == 0 {
        '0'
    } else if n == 1 {
        '1'
    } else if n == 2 {
        '2'
    } else if n == 3 {
        '3'
    } else if n == 4 {
        '4'
    } else if n == 5 {
        '5'
    } else if n == 6 {
        '6'
    } else if n == 7 {
        '7'
    } else if n == 8 {
        '8'
    } else if n == 9 {
        '9'
    } else if n == 10 {
        'a'
    } else if n == 11 {
        'b'
    } else if n == 12 {
        'c'
    } else if n == 13 {
        'd'
    } else if n == 14 {
        'e'
    } else {
        'f'
    }
}

fn hex_val_exec(c: char) -> (v: u8)
    ensures
        v as int == hex_val(c),
{
    if c == '0' {
        0
    } else if c == '1' {
        1
    } else if c == '2' {
        2
    } else if c == '3' {
        3
    } else if c == '4' {
        4
    } else if c == '5' {
        5
    } else if c == '6' {
        6
    } else if c == '7' {
        7
    } else if c == '8' {
        8
    } else if c == '9' {
        9
    } else if c == 'a' {
        10
    } else if c == 'b' {
        11
    } else if c == 'c' {
        12
    } else if c == 'd' {
        13
    } else if c == 'e' {
        14
    } else if c == 'f' {
        15
    } else {
        16
    }
}

/// Append `s`, escaped for a JSON string body.
fn append_escaped(out: &mut String, s: &str)
    ensures
        final(out)@ == old(out)@ + escape_string(s@),
{
    let n = s.unicode_len();
    let mut i: usize = 0;
    proof {
        assert(s@.skip(0) =~= s@);
        assert(old(out)@ + escape_string(s@) =~= old(out)@ + escape_string(s@));
    }
    while i < n
        invariant
            n == s@.len(),
            i <= n,
            out@ + escape_string(s@.skip(i as int)) == old(out)@ + escape_string(s@),
        decreases n - i,
    {
        let ghost out0 = out@;
        let c = s.get_char(i);
        proof {
            assert(s@.skip(i as int)[0] == c);
            assert(s@.skip(i as int).skip(1) =~= s@.skip(i as int + 1));
            assert(escape_string(s@.skip(i as int)) == esc_char(c) + escape_string(
                s@.skip(i as int + 1)));
        }
        if c == '"' {
            push_char(out, '\\');
            push_char(out, '"');
            proof {
                assert(out@ =~= out0 + esc_char(c));
            }
        } else if c == '\\' {
            push_char(out, '\\');
            push_char(out, '\\');
            proof {
                assert(out@ =~= out0 + esc_char(c));
            }
        } else if c == '\n' {
            push_char(out, '\\');
            push_char(out, 'n');
            proof {
                assert(out@ =~= out0 + esc_char(c));
            }
        } else if c == '\r' {
            push_char(out, '\\');
            push_char(out, 'r');
            proof {
                assert(out@ =~= out0 + esc_char(c));
            }
        } else if c == '\t' {
            push_char(out, '\\');
            push_char(out, 't');
            proof {
                assert(out@ =~= out0 + esc_char(c));
            }
        } else if c == '\u{8}' {
            push_char(out, '\\');
            push_char(out, 'b');
            proof {
                assert(out@ =~= out0 + esc_char(c));
            }
        } else if c == '\u{c}' {
            push_char(out, '\\');
            push_char(out, 'f');
            proof {
                assert(out@ =~= out0 + esc_char(c));
            }
        } else {
            let u = c as u32;
            if u < 32 {
                push_char(out, '\\');
                push_char(out, 'u');
                push_char(out, '0');
                push_char(out, '0');
                push_char(out, hex_char_exec(u / 16));
                push_char(out, hex_char_exec(u % 16));
                proof {
                    assert(out@ =~= out0 + esc_char(c));
                }
            } else {
                push_char(out, c);
                proof {
                    assert(out@ =~= out0 + esc_char(c));
                }
            }
        }
        proof {
            assert(out@ + escape_string(s@.skip(i as int + 1)) =~= out0 + escape_string(
                s@.skip(i as int)));
        }
        i = i + 1;
    }
    proof {
        assert(s@.skip(n as int) =~= Seq::<char>::empty());
        assert(out@ + Seq::<char>::empty() =~= out@);
    }
}

/// Append one rendered profile object.
fn append_profile(out: &mut String, p: &Profile)
    ensures
        final(out)@ == old(out)@ + render_profile(p@),
{
    out.append("    {\n      \"name\": \"");
    append_escaped(out, p.name.as_str());
    out.append("\"");
    out.append(",\n      \"username\": \"");
    append_escaped(out, p.username.as_str());
    out.append("\"");
    out.append(",\n      \"email\": \"");
    append_escaped(out, p.email.as_str());
    out.append("\"");
    out.append(",\n      \"ssh_key_name\": \"");
    append_escaped(out, p.ssh_key_name.as_str());
    out.append("\"");
    out.append("\n    }");
    proof {
        reveal_strlit("\"");
        assert("\""@ =~= seq!['"']);
        assert(out@ =~= old(out)@ + render_profile(p@));
    }
}

/// The collection, rendered in its one canonical form.
pub fn render_collection(data: &StorageData) -> (r: String)
    ensures
        r@ == render_collection_spec(data@),
{
    let mut out = String::new();
    out.append("{\n  \"version\": \"");
    append_escaped(&mut out, data.version.as_str());
    out.append("\"");
    out.append(",\n  \"profiles\": ");
    let ghost base = out@;
    let n = data.profiles.len();
    if n == 0 {
        out.append("[]");
        proof {
            assert(out@ =~= base + render_profiles_value(data@.profiles));
        }
    } else {
        out.append("[\n");
        let ghost dv = data.profiles.deep_view();
        let mut i: usize = 0;
        proof {
            assert(dv.skip(0) =~= dv);
            assert(out@ + render_profile_list(dv) =~= base + "[\n"@ + render_profile_list(dv));
        }
        while i < n
            invariant
                n == data.profiles@.len(),
                n == dv.len(),
                dv == data.profiles.deep_view(),
                n > 0,
                i <= n,
                out@ + render_profile_list(dv.skip(i as int)) == base + "[\n"@
                    + render_profile_list(dv),
            decreases n - i,
        {
            let ghost out0 = out@;
            append_profile(&mut out, &data.profiles[i]);
            proof {
                assert(dv.skip(i as int)[0] == dv[i as int]);
                assert(dv.skip(i as int).skip(1) =~= dv.skip(i as int + 1));
            }
            if i == n - 1 {
                out.append("\n  ]");
                proof {
                    assert(dv.skip(i as int).len() == 1);
                    assert(render_profile_list(dv.skip(i as int)) == render_profile(
                        dv[i as int]) + "\n  ]"@);
                    assert(out@ =~= out0 + render_profile_list(dv.skip(i as int)));
                    assert(render_profile_list(dv.skip(i as int + 1)) == Seq::<char>::empty());
                    assert(out@ + render_profile_list(dv.skip(i as int + 1)) =~= out0
                        + render_profile_list(dv.skip(i as int)));
                }
            } else {
                out.append(",\n");
                proof {
                    assert(dv.skip(i as int).len() >= 2);
                    assert(render_profile_list(dv.skip(i as int)) == render_profile(
                        dv[i as int]) + ",\n"@ + render_profile_list(dv.skip(i as int + 1)));
                    assert(out@ + render_profile_list(dv.skip(i as int + 1)) =~= out0
                        + render_profile_list(dv.skip(i as int)));
                }
            }
            i = i + 1;
        }
        proof {
            assert(dv.skip(n as int) =~= Seq::<ProfileView>::empty());
            assert(render_profile_list(Seq::<ProfileView>::empty()) == Seq::<char>::empty());
            assert(out@ + Seq::<char>::empty() =~= out@);
            assert(out@ =~= base + render_profiles_value(data@.profiles));
        }
    }
    out.append(",\n  \"last_modified\": \"");
    append_escaped(&mut out, data.last_modified.as_str());
    out.append("\"");
    out.append("\n}");
    proof {
        reveal_strlit("\"");
        assert("\""@ =~= seq!['"']);
        assert(out@ =~= render_collection_spec(data@));
    }
    out
}


/// Match `lit` at position `i`; the position after it on success.
fn expect_lit(s: &str, i: usize, lit: &str) -> (r: Option<usize>)
    requires
        i <= s@.len(),
    ensures
        match r {
            Some(j) => i <= j <= s@.len() && expect_prefix(s@.skip(i as int), lit@) == Some(
                s@.skip(j as int)),
            None => expect_prefix(s@.skip(i as int), lit@) is None,
        },
{
    let n = s.unicode_len();
    let m = lit.unicode_len();
    if m > n - i {
        proof {
            assert(s@.skip(i as int).len() < lit@.len());
        }
        return None;
    }
    let mut k: usize = 0;
    while k < m
        invariant
            n == s@.len(),
            m == lit@.len(),
            i + m <= n,
            k <= m,
            forall|j: int| 0 <= j < k ==> s@.skip(i as int)[j] == lit@[j],
        decreases m - k,
    {
        if s.get_char(i + k) != lit.get_char(k) {
            proof {
                assert(s@.skip(i as int)[k as int] == s@[i + k]);
                assert(s@.skip(i as int).subrange(0, lit@.len() as int)[k as int] == s@.skip(
                    i as int)[k as int]);
            }
            return None;
        }
        proof {
            assert(s@.skip(i as int)[k as int] == s@[i + k]);
        }
        k = k + 1;
    }
    proof {
        assert(s@.skip(i as int).subrange(0, lit@.len() as int) =~= lit@);
        assert(s@.skip(i as int).skip(lit@.len() as int) =~= s@.skip(i as int + m as int));
    }
    Some(i + m)
}

/// Read a string body starting at `i`, just after the opening quote; the
/// content and the position after the closing quote on success.
fn parse_quoted_at(s: &str, i: usize) -> (r: Option<(String, usize)>)
    requires
        i <= s@.len(),
    ensures
        match r {
            Some(pr) => i <= pr.1 <= s@.len() && parse_quoted(s@.skip(i as int)) == Some(
                (pr.0@, s@.skip(pr.1 as int)),
            ),
            None => parse_quoted(s@.skip(i as int)) is None,
        },
{
    let n = s.unicode_len();
    let mut acc = String::new();
    let mut j: usize = i;
    proof {
        assert(acc@ =~= Seq::<char>::empty());
        assert(acc@ + parse_quoted(s@.skip(i as int)).unwrap().0 =~= parse_quoted(
            s@.skip(i as int)).unwrap().0);
    }
    loop
        invariant
            n == s@.len(),
            i <= j <= n,
            parse_quoted(s@.skip(i as int)) == (match parse_quoted(s@.skip(j as int)) {
                Some(t) => Some::<(Seq<char>, Seq<char>)>((acc@ + t.0, t.1)),
                None => None::<(Seq<char>, Seq<char>)>,
            }),
        decreases n - j,
    {
        let ghost acc0 = acc@;
        let ghost sj = s@.skip(j as int);
        if j == n {
            proof {
                assert(sj.len() == 0);
            }
            return None;
        }
        let c = s.get_char(j);
        proof {
            assert(sj[0] == c);
            assert(sj.skip(1) =~= s@.skip(j as int + 1));
        }
        if c == '"' {
            proof {
                assert(parse_quoted(sj) == Some::<(Seq<char>, Seq<char>)>(
                    (Seq::<char>::empty(), s@.skip(j as int + 1))));
                assert(acc0 + Seq::<char>::empty() =~= acc0);
            }
            return Some((acc, j + 1));
        } else if c == '\\' {
            if j + 1 == n {
                proof {
                    assert(sj.len() < 2);
                }
                return None;
            }
            let e = s.get_char(j + 1);
            proof {
                assert(sj[1] == e);
                assert(sj.skip(2) =~= s@.skip(j as int + 2));
            }
            if e == '"' || e == '\\' || e == '/' || e == 'n' || e == 'r' || e == 't' || e == 'b'
                || e == 'f' {
                let u = if e == '"' {
                    '"'
                } else if e == '\\' {
                    '\\'
                } else if e == '/' {
                    '/'
                } else if e == 'n' {
                    '\n'
                } else if e == 'r' {
                    '\r'
                } else if e == 't' {
                    '\t'
                } else if e == 'b' {
                    '\u{8}'
                } else {
                    '\u{c}'
                };
                proof {
                    assert(is_simple_escape(e));
                    assert(u == unesc_char(e));
                }
                push_char(&mut acc, u);
                proof {
                    assert(acc@ =~= acc0.push(u));
                    let pq = parse_quoted(s@.skip(j as int + 2));
                    if pq is Some {
                        let t = pq.unwrap();
                        assert(parse_quoted(sj) == Some::<(Seq<char>, Seq<char>)>(
                            (seq![u] + t.0, t.1)));
                        assert(acc0 + (seq![u] + t.0) =~= acc@ + t.0);
                    } else {
                        assert(parse_quoted(sj) is None);
                    }
                }
                j = j + 2;
            } else if e == 'u' {
                if n - j < 6 {
                    proof {
                        assert(sj.len() < 6);
                    }
                    return None;
                }
                proof {
                    assert(sj[2] == s@[j + 2]);
                    assert(sj[3] == s@[j + 3]);
                    assert(sj[4] == s@[j + 4]);
                    assert(sj[5] == s@[j + 5]);
                    assert(sj.skip(6) =~= s@.skip(j as int + 6));
                }
                if s.get_char(j + 2) != '0' || s.get_char(j + 3) != '0' {
                    return None;
                }
                let vh = hex_val_exec(s.get_char(j + 4));
                let vl = hex_val_exec(s.get_char(j + 5));
                if vh >= 16 || vl >= 16 {
                    return None;
                }
                let b: u8 = 16 * vh + vl;
                let u = b as char;
                proof {
                    assert(u == char_from_hex(s@[j + 4], s@[j + 5]));
                }
                push_char(&mut acc, u);
                proof {
                    assert(acc@ =~= acc0.push(u));
                    let pq = parse_quoted(s@.skip(j as int + 6));
                    if pq is Some {
                        let t = pq.unwrap();
                        assert(parse_quoted(sj) == Some::<(Seq<char>, Seq<char>)>(
                            (seq![u] + t.0, t.1)));
                        assert(acc0 + (seq![u] + t.0) =~= acc@ + t.0);
                    } else {
                        assert(parse_quoted(sj) is None);
                    }
                }
                j = j + 6;
            } else {
                return None;
            }
        } else {
            let u = c as u32;
            if u < 32 {
                return None;
            }
            push_char(&mut acc, c);
            proof {
                assert(acc@ =~= acc0.push(c));
                let pq = parse_quoted(s@.skip(j as int + 1));
                if pq is Some {
                    let t = pq.unwrap();
                    assert(parse_quoted(sj) == Some::<(Seq<char>, Seq<char>)>(
                        (seq![c] + t.0, t.1)));
                    assert(acc0 + (seq![c] + t.0) =~= acc@ + t.0);
                } else {
                    assert(parse_quoted(sj) is None);
                }
            }
            j = j + 1;
        }
    }
}


/// Read one profile object starting at `i`.
fn parse_profile_at(s: &str, i: usize) -> (r: Option<(Profile, usize)>)
    requires
        i <= s@.len(),
    ensures
        match r {
            Some(pr) => i <= pr.1 <= s@.len() && parse_profile_entry(s@.skip(i as int)) == Some(
                (pr.0@, s@.skip(pr.1 as int)),
            ),
            None => parse_profile_entry(s@.skip(i as int)) is None,
        },
{
    let i1 = match expect_lit(s, i, "    {\n      \"name\": \"") {
        Some(j) => j,
        None => {
            return None;
        },
    };
    let (name, i2) = match parse_quoted_at(s, i1) {
        Some(p) => p,
        None => {
            return None;
        },
    };
    let i3 = match expect_lit(s, i2, ",\n      \"username\": \"") {
        Some(j) => j,
        None => {
            return None;
        },
    };
    let (username, i4) = match parse_quoted_at(s, i3) {
        Some(p) => p,
        None => {
            return None;
        },
    };
    let i5 = match expect_lit(s, i4, ",\n      \"email\": \"") {
        Some(j) => j,
        None => {
            return None;
        },
    };
    let (email, i6) = match parse_quoted_at(s, i5) {
        Some(p) => p,
        None => {
            return None;
        },
    };
    let i7 = match expect_lit(s, i6, ",\n      \"ssh_key_name\": \"") {
        Some(j) => j,
        None => {
            return None;
        },
    };
    let (ssh_key_name, i8) = match parse_quoted_at(s, i7) {
        Some(p) => p,
        None => {
            return None;
        },
    };
    let i9 = match expect_lit(s, i8, "\n    }") {
        Some(j) => j,
        None => {
            return None;
        },
    };
    let p = Profile { name, username, email, ssh_key_name };
    proof {
        assert(parse_profile_entry(s@.skip(i as int)) == Some(
            (p@, s@.skip(i9 as int))));
    }
    Some((p, i9))
}

/// Read the profiles array starting at `i`.
fn parse_profiles_at(s: &str, i: usize) -> (r: Option<(Vec<Profile>, usize)>)
    requires
        i <= s@.len(),
    ensures
        match r {
            Some(pr) => i <= pr.1 <= s@.len() && parse_profiles_value(s@.skip(i as int)) == Some(
                (pr.0.deep_view(), s@.skip(pr.1 as int)),
            ),
            None => parse_profiles_value(s@.skip(i as int)) is None,
        },
{
    let n = s.unicode_len();
    match expect_lit(s, i, "[]") {
        Some(j) => {
            let profiles: Vec<Profile> = Vec::new();
            proof {
                reveal_strlit("[]");
                assert(s@.skip(i as int).skip(2) =~= s@.skip(j as int));
                assert(profiles.deep_view() =~= Seq::<ProfileView>::empty());
            }
            return Some((profiles, j));
        },
        None => {},
    }
    let ilist = match expect_lit(s, i, "[\n") {
        Some(j) => j,
        None => {
            proof {
                reveal_strlit("[]");
                reveal_strlit("[\n");
            }
            return None;
        },
    };
    proof {
        reveal_strlit("[]");
        reveal_strlit("[\n");
        assert(!has_prefix(s@.skip(i as int), "[]"@));
        assert(s@.skip(i as int).skip(2) =~= s@.skip(ilist as int));
        assert(parse_profiles_value(s@.skip(i as int)) == parse_profile_list(
            s@.skip(ilist as int)));
    }
    let mut profiles: Vec<Profile> = Vec::new();
    let mut i4: usize = 0;
    let mut j: usize = ilist;
    proof {
        assert(profiles.deep_view() =~= Seq::<ProfileView>::empty());
        assert(Seq::<ProfileView>::empty() + parse_profile_list(
            s@.skip(ilist as int)).unwrap().0 =~= parse_profile_list(
            s@.skip(ilist as int)).unwrap().0);
    }
    loop
        invariant_except_break
            n == s@.len(),
            i <= s@.len(),
            ilist <= j <= n,
            parse_profiles_value(s@.skip(i as int)) == parse_profile_list(s@.skip(ilist as int)),
            parse_profile_list(s@.skip(ilist as int)) == (
            match parse_profile_list(s@.skip(j as int)) {
                Some(t) => Some::<(Seq<ProfileView>, Seq<char>)>(
                    (profiles.deep_view() + t.0, t.1),
                ),
                None => None::<(Seq<ProfileView>, Seq<char>)>,
            }),
        ensures
            ilist <= i4 <= n,
            n == s@.len(),
            parse_profiles_value(s@.skip(i as int)) == Some::<(Seq<ProfileView>, Seq<char>)>(
                (profiles.deep_view(), s@.skip(i4 as int)),
            ),
        decreases n - j,
    {
        let ghost acc0 = profiles.deep_view();
        let ghost sj = s@.skip(j as int);
        let (p, j2) = match parse_profile_at(s, j) {
            Some(pr) => pr,
            None => {
                proof {
                    assert(parse_profile_list(sj) is None);
                }
                return None;
            },
        };
        if j2 <= j {
            proof {
                assert(s@.skip(j2 as int).len() >= sj.len());
                assert(parse_profile_list(sj) is None);
            }
            return None;
        }
        proof {
            assert(s@.skip(j2 as int).len() < sj.len());
        }
        match expect_lit(s, j2, ",\n") {
            Some(j3) => {
                proof {
                    reveal_strlit(",\n");
                    assert(has_prefix(s@.skip(j2 as int), ",\n"@));
                    assert(s@.skip(j2 as int).len() >= 2);
                    assert(s@.skip(j2 as int).skip(2) =~= s@.skip(j3 as int));
                }
                let ghost pview = p@;
                profiles.push(p);
                proof {
                    assert(profiles.deep_view() =~= acc0.push(pview));
                    let pl = parse_profile_list(s@.skip(j3 as int));
                    if pl is Some {
                        let t = pl.unwrap();
                        assert(parse_profile_list(sj) == Some::<(Seq<ProfileView>, Seq<char>)>(
                            (seq![pview] + t.0, t.1)));
                        assert(acc0 + (seq![pview] + t.0) =~= profiles.deep_view() + t.0);
                    } else {
                        assert(parse_profile_list(sj) is None);
                    }
                }
                j = j3;
            },
            None => {
                match expect_lit(s, j2, "\n  ]") {
                    Some(j3) => {
                        proof {
                            reveal_strlit(",\n");
                        }
                        let ghost pview = p@;
                        profiles.push(p);
                        proof {
                            assert(profiles.deep_view() =~= acc0.push(pview));
                            assert(parse_profile_list(sj) == Some::<
                                (Seq<ProfileView>, Seq<char>),
                            >((seq![pview], s@.skip(j3 as int))));
                            assert(acc0 + seq![pview] =~= profiles.deep_view());
                        }
                        i4 = j3;
                        break;
                    },
                    None => {
                        proof {
                            reveal_strlit(",\n");
                            assert(parse_profile_list(sj) is None);
                        }
                        return None;
                    },
                }
            },
        }
    }
    Some((profiles, i4))
}

/// Read a whole collection text. Anything but the canonical form is
/// corrupted.
pub fn parse_collection(s: &str) -> (r: Result<StorageData, ProfileError>)
    ensures
        match parse_collection_spec(s@) {
            Some(v) => r matches Ok(d) && d@ == v,
            None => r == Err::<StorageData, ProfileError>(ProfileError::ConfigCorrupted),
        },
{
    let n = s.unicode_len();
    proof {
        assert(s@.skip(0) =~= s@);
    }
    let i1 = match expect_lit(s, 0, "{\n  \"version\": \"") {
        Some(j) => j,
        None => {
            return Err(ProfileError::ConfigCorrupted);
        },
    };
    let (version, i2) = match parse_quoted_at(s, i1) {
        Some(p) => p,
        None => {
            return Err(ProfileError::ConfigCorrupted);
        },
    };
    let i3 = match expect_lit(s, i2, ",\n  \"profiles\": ") {
        Some(j) => j,
        None => {
            return Err(ProfileError::ConfigCorrupted);
        },
    };
    let (profiles, i4) = match parse_profiles_at(s, i3) {
        Some(p) => p,
        None => {
            return Err(ProfileError::ConfigCorrupted);
        },
    };
    let i5 = match expect_lit(s, i4, ",\n  \"last_modified\": \"") {
        Some(j) => j,
        None => {
            return Err(ProfileError::ConfigCorrupted);
        },
    };
    let (last_modified, i6) = match parse_quoted_at(s, i5) {
        Some(p) => p,
        None => {
            return Err(ProfileError::ConfigCorrupted);
        },
    };
    let i7 = match expect_lit(s, i6, "\n}") {
        Some(j) => j,
        None => {
            return Err(ProfileError::ConfigCorrupted);
        },
    };
    if i7 != n {
        proof {
            assert(s@.skip(i7 as int).len() != 0);
        }
        return Err(ProfileError::ConfigCorrupted);
    }
    let d = StorageData { version, profiles, last_modified };
    proof {
        assert(s@.skip(i7 as int).len() == 0);
        assert(parse_collection_spec(s@) == Some(d@));
    }
    Ok(d)
}

} // verus!
