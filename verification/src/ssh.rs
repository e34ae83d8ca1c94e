//! The SSH host-block merger. A profile owns at most one block in the host
//! configuration text: a marker comment, a `Host` stanza line, and its
//! indented property lines. Upserting removes every block keyed by the
//! profile's marker and appends a freshly rendered one; removing just
//! drops the blocks. Both are pure text-to-text rewrites; reading and
//! writing the file is the caller's business.

use vstd::prelude::*;

use crate::error::{is_permission_denied, ProfileError};
use crate::profile::{host_alias, Profile};
use crate::text::{
    has_prefix, join_lines, join_lines_spec, seq_has_char, split_lines, split_lines_spec,
    starts_with_str, str_eq,
};
use crate::validator::{ch_is_space, is_space_char};

verus! {

/// The marker comment that keys a profile's block.
pub open spec fn marker_line(name: Seq<char>) -> Seq<char> {
    "# GitHub Profile: "@ + name
}

/// A `Host` stanza opening line.
pub open spec fn is_host_line(l: Seq<char>) -> bool {
    has_prefix(l, "Host "@)
}

/// A property line of a stanza: indented by two spaces.
pub open spec fn is_indented(l: Seq<char>) -> bool {
    has_prefix(l, "  "@)
}

/// A line of nothing but whitespace.
pub open spec fn is_blank(l: Seq<char>) -> bool {
    forall|i: int| 0 <= i < l.len() ==> is_space_char(#[trigger] l[i])
}

/// Where the block scan stands: outside any tracked block, just past a
/// marker line, or inside the stanza that follows one.
#[derive(Clone, Copy, PartialEq, Eq, Debug)]
pub enum ScanState {
    Outside,
    AfterMarker,
    InStanza,
}

/// Outside ranks below the two in-block states; a scan that leaves a block
/// re-reads the current line from Outside.
pub open spec fn scan_rank(st: ScanState) -> int {
    if st is Outside {
        0
    } else {
        1
    }
}

/// The lines that survive the block scan: a line equal to `marker` opens a
/// block; the `Host` line and its indented or blank continuation are
/// consumed with it; everything else is kept verbatim, in order.
pub open spec fn strip_blocks(lines: Seq<Seq<char>>, marker: Seq<char>, st: ScanState) -> Seq<
    Seq<char>,
>
    decreases lines.len(), scan_rank(st),
{
    if lines.len() == 0 {
        Seq::empty()
    } else {
        let l = lines[0];
        let rest = lines.skip(1);
        match st {
            ScanState::Outside => if l == marker {
                strip_blocks(rest, marker, ScanState::AfterMarker)
            } else {
                seq![l] + strip_blocks(rest, marker, ScanState::Outside)
            },
            ScanState::AfterMarker => if is_host_line(l) {
                strip_blocks(rest, marker, ScanState::InStanza)
            } else if is_blank(l) {
                strip_blocks(rest, marker, ScanState::AfterMarker)
            } else {
                strip_blocks(lines, marker, ScanState::Outside)
            },
            ScanState::InStanza => if is_indented(l) || is_blank(l) {
                strip_blocks(rest, marker, ScanState::InStanza)
            } else {
                strip_blocks(lines, marker, ScanState::Outside)
            },
        }
    }
}

/// All lines with the blocks keyed by `marker` removed.
pub open spec fn remove_block_lines(lines: Seq<Seq<char>>, marker: Seq<char>) -> Seq<Seq<char>> {
    strip_blocks(lines, marker, ScanState::Outside)
}

/// The freshly rendered block for a profile.
pub open spec fn block_lines(name: Seq<char>, key_path: Seq<char>) -> Seq<Seq<char>> {
    seq![
        marker_line(name),
        "Host "@ + host_alias(name),
        "  HostName github.com"@,
        "  User git"@,
        "  IdentityFile "@ + key_path,
        "  IdentitiesOnly yes"@,
    ]
}

/// Joined, these lines already end in a blank line, so no separator is
/// needed before an appended block.
pub open spec fn ends_in_blank_pair(ls: Seq<Seq<char>>) -> bool {
    ls.len() >= 2 && ls.last().len() == 0
}

/// The blank line inserted between surviving content and a new block.
pub open spec fn separator_lines(ls: Seq<Seq<char>>) -> Seq<Seq<char>> {
    if ls.len() > 0 && !ends_in_blank_pair(ls) {
        seq![Seq::<char>::empty()]
    } else {
        Seq::empty()
    }
}

/// The lines after an upsert: the stripped original, a separating blank
/// line where one is needed, then the profile's block.
pub open spec fn upsert_lines(lines: Seq<Seq<char>>, name: Seq<char>, key_path: Seq<char>) -> Seq<
    Seq<char>,
> {
    let stripped = remove_block_lines(lines, marker_line(name));
    stripped + separator_lines(stripped) + block_lines(name, key_path)
}

/// The whole-text upsert.
pub open spec fn upsert_content(content: Seq<char>, name: Seq<char>, key_path: Seq<char>) -> Seq<
    char,
> {
    join_lines_spec(upsert_lines(split_lines_spec(content), name, key_path))
}

/// The whole-text removal.
pub open spec fn remove_content(content: Seq<char>, name: Seq<char>) -> Seq<char> {
    join_lines_spec(remove_block_lines(split_lines_spec(content), marker_line(name)))
}

proof fn lemma_host_literal_concat()
    ensures
        "Host github.com-"@ == "Host "@ + "github.com-"@,
{
    reveal_strlit("Host github.com-");
    reveal_strlit("Host ");
    reveal_strlit("github.com-");
    assert("Host github.com-"@ =~= "Host "@ + "github.com-"@);
}

fn line_is_blank(l: &String) -> (r: bool)
    ensures
        r == is_blank(l@),
{
    let s = l.as_str();
    let n = s.unicode_len();
    let mut i: usize = 0;
    while i < n
        invariant
            n == s@.len(),
            s@ == l@,
            i <= n,
            forall|j: int| 0 <= j < i ==> is_space_char(#[trigger] s@[j]),
        decreases n - i,
    {
        if !ch_is_space(s.get_char(i)) {
            return false;
        }
        i = i + 1;
    }
    true
}

/// Render the marker comment for a profile name.
fn make_marker(name: &str) -> (m: String)
    ensures
        m@ == marker_line(name@),
{
    let mut m = "# GitHub Profile: ".to_owned();
    m.append(name);
    m
}

/// Run the block scan over `lines`, keeping what no block claims.
fn strip_block_lines_exec(lines: &Vec<String>, marker: &String) -> (out: Vec<String>)
    ensures
        out.deep_view() == remove_block_lines(lines.deep_view(), marker@),
{
    let ghost dv = lines.deep_view();
    let n = lines.len();
    let mut out: Vec<String> = Vec::new();
    let mut st = ScanState::Outside;
    let mut i: usize = 0;
    proof {
        assert(dv.skip(0) =~= dv);
        assert(out.deep_view() + strip_blocks(dv, marker@, st) =~= strip_blocks(
            dv, marker@, ScanState::Outside));
    }
    while i < n
        invariant
            dv == lines.deep_view(),
            n == dv.len(),
            i <= n,
            strip_blocks(dv, marker@, ScanState::Outside) == out.deep_view() + strip_blocks(
                dv.skip(i as int), marker@, st),
        decreases n - i, scan_rank(st),
    {
        proof {
            assert(dv.skip(i as int)[0] == dv[i as int]);
            assert(dv.skip(i as int).skip(1) =~= dv.skip(i as int + 1));
        }
        match st {
            ScanState::Outside => {
                if str_eq(lines[i].as_str(), marker.as_str()) {
                    st = ScanState::AfterMarker;
                    i = i + 1;
                } else {
                    let ghost out0 = out.deep_view();
                    out.push(lines[i].clone());
                    proof {
                        assert(out.deep_view() =~= out0.push(dv[i as int]));
                        assert(out0 + (seq![dv[i as int]] + strip_blocks(
                            dv.skip(i as int + 1), marker@, ScanState::Outside)) =~= out
                            .deep_view() + strip_blocks(
                            dv.skip(i as int + 1), marker@, ScanState::Outside));
                    }
                    i = i + 1;
                }
            },
            ScanState::AfterMarker => {
                if starts_with_str(lines[i].as_str(), "Host ") {
                    st = ScanState::InStanza;
                    i = i + 1;
                } else if line_is_blank(&lines[i]) {
                    i = i + 1;
                } else {
                    st = ScanState::Outside;
                }
            },
            ScanState::InStanza => {
                if starts_with_str(lines[i].as_str(), "  ") || line_is_blank(&lines[i]) {
                    i = i + 1;
                } else {
                    st = ScanState::Outside;
                }
            },
        }
    }
    proof {
        assert(dv.skip(n as int) =~= Seq::<Seq<char>>::empty());
        assert(out.deep_view() + Seq::<Seq<char>>::empty() =~= out.deep_view());
    }
    out
}

/// Keeps the path of the host configuration file; the text rewrites are
/// pure functions beside it.
#[derive(Debug)]
pub struct SSHConfigManager {
    pub config_path: String,
}

impl SSHConfigManager {
    /// A manager addressing `<home>/.ssh/config`. Fails when the system
    /// reports no home directory.
    pub fn new() -> (r: Result<SSHConfigManager, ProfileError>)
        ensures
            r matches Ok(m) ==> exists|h: Seq<char>| m.config_path@ == h + "/.ssh/config"@,
            r matches Err(e) ==> is_permission_denied(
                e, "Could not determine home directory"@),
    {
        match crate::paths::home_dir_path() {
            Some(home) => {
                let mut p = home;
                p.append("/.ssh/config");
                Ok(SSHConfigManager { config_path: p })
            },
            None => Err(
                ProfileError::PermissionDenied("Could not determine home directory".to_owned()),
            ),
        }
    }

    /// The text after upserting `profile`'s block, its key resolved to
    /// `key_path`. Never fails; the `Result` mirrors the write-back step
    /// the caller performs with the text.
    pub fn update_config_content(&self, content: &str, profile: &Profile, key_path: &str) -> (r:
        Result<String, ProfileError>)
        ensures
            r matches Ok(s) && s@ == upsert_content(content@, profile@.name, key_path@),
    {
        let lines = split_lines(content);
        let marker = make_marker(profile.name.as_str());
        let mut out = strip_block_lines_exec(&lines, &marker);
        let ghost stripped = out.deep_view();
        let out_len = out.len();
        let needs_sep = out_len > 0 && !(out_len >= 2 && out[out_len - 1].as_str().unicode_len()
            == 0);
        proof {
            if out_len > 0 {
                assert(stripped.last() == stripped[out_len - 1]);
            }
            assert(needs_sep == (separator_lines(stripped).len() == 1));
        }
        if needs_sep {
            let ghost out0 = out.deep_view();
            out.push(String::new());
            proof {
                assert(out.deep_view() =~= out0.push(Seq::<char>::empty()));
                assert(out.deep_view() =~= stripped + separator_lines(stripped));
            }
        } else {
            proof {
                assert(out.deep_view() =~= stripped + separator_lines(stripped));
            }
        }
        let ghost base = out.deep_view();
        let ghost name = profile@.name;
        out.push(marker);
        let mut host = "Host github.com-".to_owned();
        host.append(profile.name.as_str());
        proof {
            lemma_host_literal_concat();
            assert(host@ =~= "Host "@ + host_alias(name));
        }
        out.push(host);
        out.push("  HostName github.com".to_owned());
        out.push("  User git".to_owned());
        let mut ident = "  IdentityFile ".to_owned();
        ident.append(key_path);
        out.push(ident);
        out.push("  IdentitiesOnly yes".to_owned());
        proof {
            assert(out.deep_view() =~= base + block_lines(name, key_path@));
            assert(out.deep_view() =~= upsert_lines(split_lines_spec(content@), name, key_path@));
        }
        Ok(join_lines(&out))
    }

    /// The text after removing the blocks keyed by `profile_name`'s marker.
    pub fn remove_host_from_content(&self, content: &str, profile_name: &str) -> (r: String)
        ensures
            r@ == remove_content(content@, profile_name@),
    {
        let lines = split_lines(content);
        let marker = make_marker(profile_name);
        let out = strip_block_lines_exec(&lines, &marker);
        join_lines(&out)
    }
}


/// No surviving line equals the marker: a marker line always opens a block
/// and is consumed with it.
pub proof fn lemma_strip_no_marker(lines: Seq<Seq<char>>, marker: Seq<char>, st: ScanState)
    ensures
        forall|j: int|
            0 <= j < strip_blocks(lines, marker, st).len() ==> strip_blocks(
                lines, marker, st)[j] != marker,
    decreases lines.len(), scan_rank(st),
{
    if lines.len() == 0 {
    } else {
        let l = lines[0];
        let rest = lines.skip(1);
        match st {
            ScanState::Outside => {
                if l == marker {
                    lemma_strip_no_marker(rest, marker, ScanState::AfterMarker);
                    assert(strip_blocks(lines, marker, st) == strip_blocks(
                        rest, marker, ScanState::AfterMarker));
                } else {
                    lemma_strip_no_marker(rest, marker, ScanState::Outside);
                    let out = seq![l] + strip_blocks(rest, marker, ScanState::Outside);
                    assert(strip_blocks(lines, marker, st) == out);
                    assert(forall|j: int|
                        1 <= j < out.len() ==> out[j] == strip_blocks(
                            rest, marker, ScanState::Outside)[j - 1]);
                }
            },
            ScanState::AfterMarker => {
                if is_host_line(l) {
                    lemma_strip_no_marker(rest, marker, ScanState::InStanza);
                    assert(strip_blocks(lines, marker, st) == strip_blocks(
                        rest, marker, ScanState::InStanza));
                } else if is_blank(l) {
                    lemma_strip_no_marker(rest, marker, ScanState::AfterMarker);
                    assert(strip_blocks(lines, marker, st) == strip_blocks(
                        rest, marker, ScanState::AfterMarker));
                } else {
                    lemma_strip_no_marker(lines, marker, ScanState::Outside);
                    assert(strip_blocks(lines, marker, st) == strip_blocks(
                        lines, marker, ScanState::Outside));
                }
            },
            ScanState::InStanza => {
                if is_indented(l) || is_blank(l) {
                    lemma_strip_no_marker(rest, marker, ScanState::InStanza);
                    assert(strip_blocks(lines, marker, st) == strip_blocks(
                        rest, marker, ScanState::InStanza));
                } else {
                    lemma_strip_no_marker(lines, marker, ScanState::Outside);
                    assert(strip_blocks(lines, marker, st) == strip_blocks(
                        lines, marker, ScanState::Outside));
                }
            },
        }
    }
}

/// Every surviving line is one of the input lines.
pub proof fn lemma_strip_membership(lines: Seq<Seq<char>>, marker: Seq<char>, st: ScanState)
    ensures
        forall|j: int|
            0 <= j < strip_blocks(lines, marker, st).len() ==> exists|i: int|
                0 <= i < lines.len() && #[trigger] strip_blocks(lines, marker, st)[j]
                    == lines[i],
    decreases lines.len(), scan_rank(st),
{
    if lines.len() == 0 {
    } else {
        let l = lines[0];
        let rest = lines.skip(1);
        assert(forall|i: int| 0 <= i < rest.len() ==> rest[i] == lines[i + 1]);
        match st {
            ScanState::Outside => {
                if l == marker {
                    lemma_strip_membership(rest, marker, ScanState::AfterMarker);
                    assert(strip_blocks(lines, marker, st) == strip_blocks(
                        rest, marker, ScanState::AfterMarker));
                    assert forall|j: int|
                        0 <= j < strip_blocks(lines, marker, st).len() implies exists|i: int|
                        0 <= i < lines.len() && #[trigger] strip_blocks(lines, marker, st)[j]
                            == lines[i] by {
                        let sub = strip_blocks(rest, marker, ScanState::AfterMarker);
                        let i0 = choose|i0: int| 0 <= i0 < rest.len() && sub[j] == rest[i0];
                        assert(strip_blocks(lines, marker, st)[j] == lines[i0 + 1]);
                    }
                } else {
                    lemma_strip_membership(rest, marker, ScanState::Outside);
                    let out = seq![l] + strip_blocks(rest, marker, ScanState::Outside);
                    assert(strip_blocks(lines, marker, st) == out);
                    assert forall|j: int|
                        0 <= j < out.len() implies exists|i: int|
                        0 <= i < lines.len() && #[trigger] out[j] == lines[i] by {
                        if j == 0 {
                            assert(out[0] == lines[0]);
                        } else {
                            let sub = strip_blocks(rest, marker, ScanState::Outside);
                            assert(out[j] == sub[j - 1]);
                            let i0 = choose|i0: int|
                                0 <= i0 < rest.len() && sub[j - 1] == rest[i0];
                            assert(out[j] == lines[i0 + 1]);
                        }
                    }
                }
            },
            ScanState::AfterMarker => {
                if is_host_line(l) {
                    lemma_strip_membership(rest, marker, ScanState::InStanza);
                    lemma_membership_shift(lines, marker, ScanState::InStanza);
                    assert(strip_blocks(lines, marker, st) == strip_blocks(
                        rest, marker, ScanState::InStanza));
                } else if is_blank(l) {
                    lemma_strip_membership(rest, marker, ScanState::AfterMarker);
                    lemma_membership_shift(lines, marker, ScanState::AfterMarker);
                    assert(strip_blocks(lines, marker, st) == strip_blocks(
                        rest, marker, ScanState::AfterMarker));
                } else {
                    lemma_strip_membership(lines, marker, ScanState::Outside);
                    assert(strip_blocks(lines, marker, st) == strip_blocks(
                        lines, marker, ScanState::Outside));
                }
            },
            ScanState::InStanza => {
                if is_indented(l) || is_blank(l) {
                    lemma_strip_membership(rest, marker, ScanState::InStanza);
                    lemma_membership_shift(lines, marker, ScanState::InStanza);
                    assert(strip_blocks(lines, marker, st) == strip_blocks(
                        rest, marker, ScanState::InStanza));
                } else {
                    lemma_strip_membership(lines, marker, ScanState::Outside);
                    assert(strip_blocks(lines, marker, st) == strip_blocks(
                        lines, marker, ScanState::Outside));
                }
            },
        }
    }
}

/// Lift membership in the tail to membership in the whole.
proof fn lemma_membership_shift(lines: Seq<Seq<char>>, marker: Seq<char>, st: ScanState)
    requires
        lines.len() > 0,
        forall|j: int|
            0 <= j < strip_blocks(lines.skip(1), marker, st).len() ==> exists|i: int|
                0 <= i < lines.skip(1).len() && #[trigger] strip_blocks(
                    lines.skip(1), marker, st)[j] == lines.skip(1)[i],
    ensures
        forall|j: int|
            0 <= j < strip_blocks(lines.skip(1), marker, st).len() ==> exists|i: int|
                0 <= i < lines.len() && #[trigger] strip_blocks(lines.skip(1), marker, st)[j]
                    == lines[i],
{
    let rest = lines.skip(1);
    let sub = strip_blocks(rest, marker, st);
    assert forall|j: int| 0 <= j < sub.len() implies exists|i: int|
        0 <= i < lines.len() && #[trigger] sub[j] == lines[i] by {
        let i0 = choose|i0: int| 0 <= i0 < rest.len() && sub[j] == rest[i0];
        assert(rest[i0] == lines[i0 + 1]);
        assert(sub[j] == lines[i0 + 1]);
    }
}

/// A text with no marker line passes through the scan unchanged.
pub proof fn lemma_strip_clean_identity(lines: Seq<Seq<char>>, marker: Seq<char>)
    requires
        forall|j: int| 0 <= j < lines.len() ==> lines[j] != marker,
    ensures
        strip_blocks(lines, marker, ScanState::Outside) == lines,
    decreases lines.len(),
{
    if lines.len() == 0 {
        assert(strip_blocks(lines, marker, ScanState::Outside) =~= lines);
    } else {
        let rest = lines.skip(1);
        assert(forall|i: int| 0 <= i < rest.len() ==> rest[i] == lines[i + 1]);
        lemma_strip_clean_identity(rest, marker);
        assert(seq![lines[0]] + rest =~= lines);
    }
}


/// What the rendered block looks like to the scan: the marker first, a
/// `Host` line, then only indented lines; no line but the first equals the
/// marker, and the marker is nonempty.
proof fn lemma_block_facts(name: Seq<char>, key_path: Seq<char>)
    ensures
        block_lines(name, key_path).len() == 6,
        block_lines(name, key_path)[0] == marker_line(name),
        is_host_line(block_lines(name, key_path)[1]),
        is_indented(block_lines(name, key_path)[2]),
        is_indented(block_lines(name, key_path)[3]),
        is_indented(block_lines(name, key_path)[4]),
        is_indented(block_lines(name, key_path)[5]),
        forall|j: int| 1 <= j < 6 ==> block_lines(name, key_path)[j] != marker_line(name),
        marker_line(name).len() > 0,
        marker_line(name)[0] == '#',
{
    reveal_strlit("# GitHub Profile: ");
    reveal_strlit("Host ");
    reveal_strlit("  ");
    reveal_strlit("  HostName github.com");
    reveal_strlit("  User git");
    reveal_strlit("  IdentityFile ");
    reveal_strlit("  IdentitiesOnly yes");
    let b = block_lines(name, key_path);
    let m = marker_line(name);
    assert(m[0] == '#');
    assert(("Host "@ + host_alias(name)).subrange(0, 5) =~= "Host "@);
    assert(is_host_line(b[1]));
    assert(b[2].subrange(0, 2) =~= "  "@);
    assert(b[3].subrange(0, 2) =~= "  "@);
    assert(("  IdentityFile "@ + key_path).subrange(0, 2) =~= "  "@);
    assert(b[5].subrange(0, 2) =~= "  "@);
    assert(b[1][0] == 'H');
    assert(b[2][0] == ' ');
    assert(b[3][0] == ' ');
    assert(b[4][0] == ' ');
    assert(b[5][0] == ' ');
}

/// The scan consumes a freshly rendered block whole.
proof fn lemma_strip_block_alone(name: Seq<char>, key_path: Seq<char>)
    ensures
        strip_blocks(block_lines(name, key_path), marker_line(name), ScanState::Outside)
            == Seq::<Seq<char>>::empty(),
{
    lemma_block_facts(name, key_path);
    let b = block_lines(name, key_path);
    let m = marker_line(name);
    let b1 = b.skip(1);
    let b2 = b.skip(2);
    let b3 = b.skip(3);
    let b4 = b.skip(4);
    let b5 = b.skip(5);
    let b6 = b.skip(6);
    assert(b1[0] == b[1] && b1.skip(1) =~= b2);
    assert(b2[0] == b[2] && b2.skip(1) =~= b3);
    assert(b3[0] == b[3] && b3.skip(1) =~= b4);
    assert(b4[0] == b[4] && b4.skip(1) =~= b5);
    assert(b5[0] == b[5] && b5.skip(1) =~= b6);
    assert(b6.len() == 0);
    assert(strip_blocks(b6, m, ScanState::InStanza) =~= Seq::<Seq<char>>::empty());
    assert(strip_blocks(b5, m, ScanState::InStanza) == strip_blocks(b6, m, ScanState::InStanza));
    assert(strip_blocks(b4, m, ScanState::InStanza) == strip_blocks(b5, m, ScanState::InStanza));
    assert(strip_blocks(b3, m, ScanState::InStanza) == strip_blocks(b4, m, ScanState::InStanza));
    assert(strip_blocks(b2, m, ScanState::InStanza) == strip_blocks(b3, m, ScanState::InStanza));
    assert(strip_blocks(b1, m, ScanState::AfterMarker) == strip_blocks(
        b2, m, ScanState::InStanza));
    assert(b.skip(1) =~= b1);
    assert(strip_blocks(b, m, ScanState::Outside) == strip_blocks(b1, m, ScanState::AfterMarker));
}

/// Appending the rendered block to a marker-free text and scanning gives
/// back exactly the marker-free text.
proof fn lemma_strip_clean_then_block(clean: Seq<Seq<char>>, name: Seq<char>, key_path: Seq<char>)
    requires
        forall|j: int| 0 <= j < clean.len() ==> clean[j] != marker_line(name),
    ensures
        strip_blocks(clean + block_lines(name, key_path), marker_line(name), ScanState::Outside)
            == clean,
    decreases clean.len(),
{
    let m = marker_line(name);
    let b = block_lines(name, key_path);
    if clean.len() == 0 {
        assert(clean + b =~= b);
        lemma_strip_block_alone(name, key_path);
        assert(strip_blocks(clean + b, m, ScanState::Outside) =~= clean);
    } else {
        let all = clean + b;
        assert(all.len() > 0);
        assert(all[0] == clean[0]);
        assert(all[0] != m);
        assert(all.skip(1) =~= clean.skip(1) + b);
        assert(forall|j: int|
            0 <= j < clean.skip(1).len() ==> clean.skip(1)[j] == clean[j + 1]);
        lemma_strip_clean_then_block(clean.skip(1), name, key_path);
        assert(strip_blocks(all, m, ScanState::Outside) == seq![all[0]] + strip_blocks(
            all.skip(1), m, ScanState::Outside));
        assert(seq![clean[0]] + clean.skip(1) =~= clean);
    }
}

/// Upserting a profile's block is idempotent at the line level, whatever
/// the starting text.
pub proof fn lemma_upsert_lines_idempotent(
    lines: Seq<Seq<char>>,
    name: Seq<char>,
    key_path: Seq<char>,
)
    ensures
        upsert_lines(upsert_lines(lines, name, key_path), name, key_path) == upsert_lines(
            lines, name, key_path),
{
    let m = marker_line(name);
    let b = block_lines(name, key_path);
    let stripped = remove_block_lines(lines, m);
    let sep = separator_lines(stripped);
    let clean = stripped + sep;
    let r1 = upsert_lines(lines, name, key_path);
    assert(r1 =~= clean + b);
    lemma_block_facts(name, key_path);
    lemma_strip_no_marker(lines, m, ScanState::Outside);
    assert(forall|j: int| 0 <= j < clean.len() ==> clean[j] != m) by {
        assert(forall|j: int| 0 <= j < stripped.len() ==> clean[j] == stripped[j]);
        assert(forall|j: int|
            stripped.len() <= j < clean.len() ==> clean[j] == sep[j - stripped.len()]);
        assert(forall|j: int| 0 <= j < sep.len() ==> sep[j].len() == 0);
    }
    lemma_strip_clean_then_block(clean, name, key_path);
    assert(remove_block_lines(r1, m) == clean);
    let sep2 = separator_lines(clean);
    if stripped.len() == 0 {
        assert(sep =~= Seq::<Seq<char>>::empty());
        assert(clean =~= stripped);
        assert(sep2 =~= Seq::<Seq<char>>::empty());
    } else if !ends_in_blank_pair(stripped) {
        assert(sep =~= seq![Seq::<char>::empty()]);
        assert(clean.len() >= 2);
        assert(clean.last().len() == 0);
        assert(ends_in_blank_pair(clean));
        assert(sep2 =~= Seq::<Seq<char>>::empty());
    } else {
        assert(sep =~= Seq::<Seq<char>>::empty());
        assert(clean =~= stripped);
        assert(ends_in_blank_pair(clean));
        assert(sep2 =~= Seq::<Seq<char>>::empty());
    }
    assert(upsert_lines(r1, name, key_path) =~= clean + sep2 + b);
    assert(clean + sep2 + b =~= r1);
}


/// `sub` occurs contiguously somewhere in `l`.
pub open spec fn line_mentions(l: Seq<char>, sub: Seq<char>) -> bool {
    exists|k: int| 0 <= k && k + sub.len() <= l.len() && #[trigger] l.subrange(k, k + sub.len())
        == sub
}

/// How many lines of `ls` equal `l`.
pub open spec fn count_lines_equal(ls: Seq<Seq<char>>, l: Seq<char>) -> int
    decreases ls.len(),
{
    if ls.len() == 0 {
        0
    } else {
        (if ls[0] == l {
            1int
        } else {
            0int
        }) + count_lines_equal(ls.skip(1), l)
    }
}

proof fn lemma_count_concat(a: Seq<Seq<char>>, b: Seq<Seq<char>>, l: Seq<char>)
    ensures
        count_lines_equal(a + b, l) == count_lines_equal(a, l) + count_lines_equal(b, l),
    decreases a.len(),
{
    if a.len() == 0 {
        assert(a + b =~= b);
    } else {
        assert((a + b)[0] == a[0]);
        assert((a + b).skip(1) =~= a.skip(1) + b);
        lemma_count_concat(a.skip(1), b, l);
    }
}

proof fn lemma_count_zero(ls: Seq<Seq<char>>, l: Seq<char>)
    requires
        forall|j: int| 0 <= j < ls.len() ==> ls[j] != l,
    ensures
        count_lines_equal(ls, l) == 0,
    decreases ls.len(),
{
    if ls.len() == 0 {
    } else {
        assert(forall|j: int| 0 <= j < ls.skip(1).len() ==> ls.skip(1)[j] == ls[j + 1]);
        lemma_count_zero(ls.skip(1), l);
    }
}

proof fn lemma_count_block(name: Seq<char>, key_path: Seq<char>)
    ensures
        count_lines_equal(block_lines(name, key_path), marker_line(name)) == 1,
{
    lemma_block_facts(name, key_path);
    let b = block_lines(name, key_path);
    let m = marker_line(name);
    assert(forall|j: int| 0 <= j < b.skip(1).len() ==> b.skip(1)[j] == b[j + 1]);
    lemma_count_zero(b.skip(1), m);
}

/// Upserting into a text none of whose lines is the profile's marker keeps
/// every line verbatim in place and only appends: a blank separator where
/// one is needed, then the rendered block.
pub proof fn lemma_upsert_preserves_unrelated(
    lines: Seq<Seq<char>>,
    name: Seq<char>,
    key_path: Seq<char>,
)
    requires
        forall|j: int| 0 <= j < lines.len() ==> lines[j] != marker_line(name),
    ensures
        upsert_lines(lines, name, key_path) == lines + separator_lines(lines) + block_lines(
            name, key_path),
{
    lemma_strip_clean_identity(lines, marker_line(name));
}

/// After an upsert, exactly one line carries the profile's marker.
pub proof fn lemma_upsert_one_marker(
    lines: Seq<Seq<char>>,
    name: Seq<char>,
    key_path: Seq<char>,
)
    ensures
        count_lines_equal(upsert_lines(lines, name, key_path), marker_line(name)) == 1,
{
    let m = marker_line(name);
    let b = block_lines(name, key_path);
    let stripped = remove_block_lines(lines, m);
    let sep = separator_lines(stripped);
    lemma_block_facts(name, key_path);
    lemma_strip_no_marker(lines, m, ScanState::Outside);
    lemma_count_zero(stripped, m);
    assert(forall|j: int| 0 <= j < sep.len() ==> sep[j].len() == 0);
    lemma_count_zero(sep, m);
    lemma_count_block(name, key_path);
    lemma_count_concat(stripped, sep, m);
    lemma_count_concat(stripped + sep, b, m);
}

/// Removing a profile right after upserting it leaves exactly the stripped
/// original plus at most the separating blank line: no surviving line
/// equals the marker, and none mentions the host alias unless an original
/// line already did.
pub proof fn lemma_remove_after_upsert(
    lines: Seq<Seq<char>>,
    name: Seq<char>,
    key_path: Seq<char>,
)
    ensures
        ({
            let out = remove_block_lines(
                upsert_lines(lines, name, key_path), marker_line(name));
            let stripped = remove_block_lines(lines, marker_line(name));
            &&& out == stripped + separator_lines(stripped)
            &&& forall|j: int| 0 <= j < out.len() ==> (#[trigger] out[j]) != marker_line(name)
            &&& (forall|j: int|
                0 <= j < lines.len() ==> !line_mentions(#[trigger] lines[j], host_alias(name)))
                ==> (forall|j: int|
                0 <= j < out.len() ==> !line_mentions(#[trigger] out[j], host_alias(name)))
        }),
{
    let m = marker_line(name);
    let b = block_lines(name, key_path);
    let stripped = remove_block_lines(lines, m);
    let sep = separator_lines(stripped);
    let clean = stripped + sep;
    let r1 = upsert_lines(lines, name, key_path);
    assert(r1 =~= clean + b);
    lemma_block_facts(name, key_path);
    lemma_strip_no_marker(lines, m, ScanState::Outside);
    assert(forall|j: int| 0 <= j < sep.len() ==> sep[j].len() == 0);
    assert(forall|j: int| 0 <= j < clean.len() ==> clean[j] != m) by {
        assert(forall|j: int| 0 <= j < stripped.len() ==> clean[j] == stripped[j]);
        assert(forall|j: int|
            stripped.len() <= j < clean.len() ==> clean[j] == sep[j - stripped.len()]);
    }
    lemma_strip_clean_then_block(clean, name, key_path);
    let out = remove_block_lines(r1, m);
    assert(out == clean);
    if forall|j: int|
        0 <= j < lines.len() ==> !line_mentions(#[trigger] lines[j], host_alias(name)) {
        lemma_strip_membership(lines, m, ScanState::Outside);
        reveal_strlit("github.com-");
        assert(host_alias(name).len() > 0);
        assert forall|j: int|
            0 <= j < out.len() implies !line_mentions(#[trigger] out[j], host_alias(name)) by {
            if j < stripped.len() {
                assert(out[j] == stripped[j]);
                let i = choose|i: int| 0 <= i < lines.len() && stripped[j] == lines[i];
                assert(!line_mentions(lines[i], host_alias(name)));
            } else {
                assert(out[j] == sep[j - stripped.len()]);
                assert(out[j].len() == 0);
            }
        }
    }
}


proof fn lemma_no_char_concat(a: Seq<char>, b: Seq<char>, c: char)
    requires
        !seq_has_char(a, c),
        !seq_has_char(b, c),
    ensures
        !seq_has_char(a + b, c),
{
    assert forall|k: int| 0 <= k < (a + b).len() implies (a + b)[k] != c by {
        if k < a.len() {
            assert((a + b)[k] == a[k]);
        } else {
            assert((a + b)[k] == b[k - a.len()]);
        }
    }
}

proof fn lemma_block_literals_newline_free()
    ensures
        !seq_has_char("# GitHub Profile: "@, '\n'),
        !seq_has_char("Host "@, '\n'),
        !seq_has_char("github.com-"@, '\n'),
        !seq_has_char("  HostName github.com"@, '\n'),
        !seq_has_char("  User git"@, '\n'),
        !seq_has_char("  IdentityFile "@, '\n'),
        !seq_has_char("  IdentitiesOnly yes"@, '\n'),
{
    reveal_strlit("# GitHub Profile: ");
    reveal_strlit("Host ");
    reveal_strlit("github.com-");
    reveal_strlit("  HostName github.com");
    reveal_strlit("  User git");
    reveal_strlit("  IdentityFile ");
    reveal_strlit("  IdentitiesOnly yes");
}

/// The rendered block's lines are newline-free when the name and the key
/// path are.
proof fn lemma_block_newline_free(name: Seq<char>, key_path: Seq<char>)
    requires
        !seq_has_char(name, '\n'),
        !seq_has_char(key_path, '\n'),
    ensures
        crate::text::newline_free(block_lines(name, key_path)),
{
    lemma_block_literals_newline_free();
    let b = block_lines(name, key_path);
    lemma_no_char_concat("# GitHub Profile: "@, name, '\n');
    lemma_no_char_concat("github.com-"@, name, '\n');
    lemma_no_char_concat("Host "@, host_alias(name), '\n');
    lemma_no_char_concat("  IdentityFile "@, key_path, '\n');
    assert forall|i: int| 0 <= i < b.len() implies !seq_has_char(#[trigger] b[i], '\n') by {
        if i == 0 {
            assert(b[0] == "# GitHub Profile: "@ + name);
        } else if i == 1 {
            assert(b[1] == "Host "@ + host_alias(name));
        } else if i == 4 {
            assert(b[4] == "  IdentityFile "@ + key_path);
        }
    }
}

/// The lines of an upsert are newline-free when the input lines, the name
/// and the key path are.
proof fn lemma_upsert_lines_newline_free(
    lines: Seq<Seq<char>>,
    name: Seq<char>,
    key_path: Seq<char>,
)
    requires
        crate::text::newline_free(lines),
        !seq_has_char(name, '\n'),
        !seq_has_char(key_path, '\n'),
    ensures
        crate::text::newline_free(upsert_lines(lines, name, key_path)),
{
    let m = marker_line(name);
    let b = block_lines(name, key_path);
    let stripped = remove_block_lines(lines, m);
    let sep = separator_lines(stripped);
    let out = upsert_lines(lines, name, key_path);
    lemma_strip_membership(lines, m, ScanState::Outside);
    lemma_block_newline_free(name, key_path);
    assert forall|i: int| 0 <= i < out.len() implies !seq_has_char(#[trigger] out[i], '\n') by {
        if i < stripped.len() {
            assert(out[i] == stripped[i]);
            let k = choose|k: int| 0 <= k < lines.len() && stripped[i] == lines[k];
            assert(!seq_has_char(lines[k], '\n'));
        } else if i < stripped.len() + sep.len() {
            assert(out[i] == sep[i - stripped.len()]);
            assert(out[i].len() == 0);
        } else {
            assert(out[i] == b[i - stripped.len() - sep.len()]);
        }
    }
}

/// Upserting the same profile twice produces the same text as upserting it
/// once, and that text holds exactly one line carrying the profile's
/// marker. The name and key path hold no newline, as a valid profile name
/// and any one-line path never do.
pub proof fn lemma_upsert_idempotent(content: Seq<char>, name: Seq<char>, key_path: Seq<char>)
    requires
        !seq_has_char(name, '\n'),
        !seq_has_char(key_path, '\n'),
    ensures
        upsert_content(upsert_content(content, name, key_path), name, key_path) == upsert_content(
            content, name, key_path),
        count_lines_equal(
            split_lines_spec(upsert_content(content, name, key_path)), marker_line(name)) == 1,
{
    let ls = split_lines_spec(content);
    let ul = upsert_lines(ls, name, key_path);
    crate::text::lemma_split_newline_free(content);
    lemma_upsert_lines_newline_free(ls, name, key_path);
    crate::text::lemma_split_join(ul);
    lemma_upsert_lines_idempotent(ls, name, key_path);
    lemma_upsert_one_marker(ls, name, key_path);
}

/// After an upsert and then a removal for the same name, no line of the
/// text carries the profile's marker; and when no original line mentioned
/// the profile's host alias, no remaining line does either.
pub proof fn lemma_remove_after_upsert_content(
    content: Seq<char>,
    name: Seq<char>,
    key_path: Seq<char>,
)
    requires
        !seq_has_char(name, '\n'),
        !seq_has_char(key_path, '\n'),
    ensures
        ({
            let out = split_lines_spec(
                remove_content(upsert_content(content, name, key_path), name));
            &&& forall|j: int| 0 <= j < out.len() ==> (#[trigger] out[j]) != marker_line(name)
            &&& (forall|j: int|
                0 <= j < split_lines_spec(content).len() ==> !line_mentions(
                    #[trigger] split_lines_spec(content)[j], host_alias(name)))
                ==> (forall|j: int|
                0 <= j < out.len() ==> !line_mentions(#[trigger] out[j], host_alias(name)))
        }),
{
    let m = marker_line(name);
    let ls = split_lines_spec(content);
    let ul = upsert_lines(ls, name, key_path);
    let stripped = remove_block_lines(ls, m);
    let clean = stripped + separator_lines(stripped);
    crate::text::lemma_split_newline_free(content);
    lemma_upsert_lines_newline_free(ls, name, key_path);
    crate::text::lemma_split_join(ul);
    lemma_remove_after_upsert(ls, name, key_path);
    assert(remove_block_lines(ul, m) == clean);
    assert(remove_content(upsert_content(content, name, key_path), name) == join_lines_spec(
        clean));
    assert(crate::text::newline_free(clean)) by {
        assert forall|i: int|
            0 <= i < clean.len() implies !seq_has_char(#[trigger] clean[i], '\n') by {
            assert(clean[i] == ul[i]);
        }
    }
    crate::text::lemma_split_join(clean);
}

} // verus!
