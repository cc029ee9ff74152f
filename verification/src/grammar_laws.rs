//! What the grammar makes of a parameter block written line by line: every
//! `name = value` line gives its pair, in order, whatever blank space and
//! `#` comment lines stand after the `{` and between or after the pairs, and
//! whatever run of spaces and tabs stands around each `=`.
//!
//! The shapes below are written with the bytes themselves, not with the
//! grammar's byte classes, so that they say what the grammar must accept.

use vstd::prelude::*;
use vstd::utf8::*;

use crate::grammar::{
    configuration, gather, kw_input, kw_output, processor_and_params, processor_list,
    processor_name, section, section_kind, section_list, Section, SpecConfig, SpecDecl,
    blank_item, blanks, comment, eof, eol, in_class, key_value, keys_and_values, kv_block,
    kv_list, lemma_scan, optional, quoted_string, run, scan, single, tag, unquoted_value, value, ByteClass,
    Failure,
};
use crate::params::pairs_to_map;

verus! {

/// A piece of blank space: one space, tab, carriage return or line feed, or
/// a comment line: `#`, bytes that are neither carriage return nor line
/// feed, and a line feed.
pub open spec fn blank_piece(p: Seq<u8>) -> bool {
    ||| p.len() == 1 && (p[0] == 32u8 || p[0] == 9u8 || p[0] == 13u8 || p[0] == 10u8)
    ||| p.len() >= 2 && p[0] == 35u8 && p[p.len() - 1] == 10u8 && forall|i: int|
        1 <= i < p.len() - 1 ==> #[trigger] p[i] != 10u8 && p[i] != 13u8
}

/// Every piece is blank space.
pub open spec fn all_blank(ps: Seq<Seq<u8>>) -> bool {
    forall|i: int| 0 <= i < ps.len() ==> blank_piece(#[trigger] ps[i])
}

/// The pieces one after the other.
pub open spec fn concat(ps: Seq<Seq<u8>>) -> Seq<u8>
    decreases ps.len(),
{
    if ps.len() == 0 {
        Seq::empty()
    } else {
        ps[0] + concat(ps.drop_first())
    }
}

/// A parameter name: one or more ASCII letters and digits.
pub open spec fn name_bytes(k: Seq<u8>) -> bool {
    k.len() >= 1 && forall|i: int|
        0 <= i < k.len() ==> (65u8 <= #[trigger] k[i] <= 90u8) || (97u8 <= k[i] <= 122u8) || (
        48u8 <= k[i] <= 57u8)
}

/// Spaces and tabs, possibly none.
pub open spec fn spacing(a: Seq<u8>) -> bool {
    forall|i: int| 0 <= i < a.len() ==> #[trigger] a[i] == 32u8 || a[i] == 9u8
}

/// A value written without quotes: well-formed UTF-8, not empty, holding no
/// line feed, carriage return or `#`, and starting neither with a double
/// quote nor with a space or a tab.
pub open spec fn plain_value(v: Seq<u8>) -> bool {
    &&& v.len() >= 1
    &&& v[0] != 34u8 && v[0] != 32u8 && v[0] != 9u8
    &&& forall|i: int| 0 <= i < v.len() ==> #[trigger] v[i] != 10u8 && v[i] != 13u8 && v[i] != 35u8
    &&& valid_utf8(v)
}

/// A value written between double quotes: well-formed UTF-8 holding no
/// double quote; it may be empty and may hold spaces, tabs and `#`.
pub open spec fn quoted_value(v: Seq<u8>) -> bool {
    &&& forall|i: int| 0 <= i < v.len() ==> #[trigger] v[i] != 34u8
    &&& valid_utf8(v)
}

/// One `name = value` line of a parameter block and the blank space that
/// follows it.
pub struct PairLine {
    /// The parameter's name.
    pub name: Seq<u8>,
    /// What stands between the name and `=`.
    pub before_eq: Seq<u8>,
    /// What stands between `=` and the value.
    pub after_eq: Seq<u8>,
    /// Whether the value stands between double quotes.
    pub quoted: bool,
    /// The value, without its quotes.
    pub value: Seq<u8>,
    /// The blank space after the line feed that ends the line.
    pub after: Seq<Seq<u8>>,
}

pub open spec fn pair_line_ok(l: PairLine) -> bool {
    &&& name_bytes(l.name)
    &&& spacing(l.before_eq)
    &&& spacing(l.after_eq)
    &&& if l.quoted {
        quoted_value(l.value)
    } else {
        plain_value(l.value)
    }
    &&& all_blank(l.after)
}

pub open spec fn lines_ok(ls: Seq<PairLine>) -> bool {
    forall|i: int| 0 <= i < ls.len() ==> pair_line_ok(#[trigger] ls[i])
}

/// The value as the line writes it.
pub open spec fn value_text(l: PairLine) -> Seq<u8> {
    if l.quoted {
        seq![34u8] + l.value + seq![34u8]
    } else {
        l.value
    }
}

/// The bytes of the part of a line up to its line feed.
pub open spec fn pair_text(l: PairLine) -> Seq<u8> {
    l.name + l.before_eq + seq![61u8] + l.after_eq + value_text(l)
}

/// The bytes of a line, its line feed and the blank space after it.
pub open spec fn line_text(l: PairLine) -> Seq<u8> {
    pair_text(l) + seq![10u8] + concat(l.after)
}

pub open spec fn lines_text(ls: Seq<PairLine>) -> Seq<u8>
    decreases ls.len(),
{
    if ls.len() == 0 {
        Seq::empty()
    } else {
        line_text(ls[0]) + lines_text(ls.drop_first())
    }
}

/// A parameter block: `{`, blank space, the lines, `}`.
pub open spec fn block_text(lead: Seq<Seq<u8>>, ls: Seq<PairLine>) -> Seq<u8> {
    seq![123u8] + concat(lead) + lines_text(ls) + seq![125u8]
}

/// The pair that a line gives: its name and its value, decoded.
pub open spec fn line_pair(l: PairLine) -> (Seq<char>, Seq<char>) {
    (l.name.map_values(|b: u8| b as char), decode_utf8(l.value))
}

pub open spec fn line_pairs(ls: Seq<PairLine>) -> Seq<(Seq<char>, Seq<char>)> {
    ls.map_values(|l: PairLine| line_pair(l))
}

/// The bytes of `t` stand in `s` from `p` on.
#[verifier::opaque]
pub open spec fn holds_at(s: Seq<u8>, p: int, t: Seq<u8>) -> bool {
    &&& 0 <= p
    &&& p + t.len() <= s.len()
    &&& forall|i: int| 0 <= i < t.len() ==> s[p + i] == #[trigger] t[i]
}

/// A parameter block written line by line gives the pairs of its lines, in
/// order, and ends after its `}`: the blank space and the comment lines
/// after the `{` and after each line are skipped, and so is any run of
/// spaces and tabs around each `=`.
pub proof fn lemma_block_gives_its_lines(
    s: Seq<u8>,
    pos: int,
    lead: Seq<Seq<u8>>,
    ls: Seq<PairLine>,
)
    requires
        0 <= pos,
        pos + block_text(lead, ls).len() <= s.len(),
        s.subrange(pos, pos + block_text(lead, ls).len()) == block_text(lead, ls),
        all_blank(lead),
        lines_ok(ls),
    ensures
        kv_block(s, pos) == Ok::<(int, Seq<(Seq<char>, Seq<char>)>), Failure>(
            (pos + block_text(lead, ls).len(), line_pairs(ls)),
        ),
        keys_and_values(s, pos) == Ok::<(int, Map<Seq<char>, Seq<char>>), Failure>(
            (pos + block_text(lead, ls).len(), pairs_to_map(line_pairs(ls))),
        ),
{
    lemma_holds_from_subrange(s, pos, block_text(lead, ls));
    lemma_block_at(s, pos, lead, ls);
}

proof fn lemma_holds_from_subrange(s: Seq<u8>, pos: int, t: Seq<u8>)
    requires
        0 <= pos,
        pos + t.len() <= s.len(),
        s.subrange(pos, pos + t.len()) == t,
    ensures
        holds_at(s, pos, t),
{
    reveal(holds_at);
    assert forall|i: int| 0 <= i < t.len() implies s[pos + i] == #[trigger] t[i] by {
        assert(s.subrange(pos, pos + t.len())[i] == t[i]);
    }
}

#[verifier::rlimit(40)]
proof fn lemma_block_at(s: Seq<u8>, pos: int, lead: Seq<Seq<u8>>, ls: Seq<PairLine>)
    requires
        holds_at(s, pos, block_text(lead, ls)),
        all_blank(lead),
        lines_ok(ls),
    ensures
        kv_block(s, pos) == Ok::<(int, Seq<(Seq<char>, Seq<char>)>), Failure>(
            (pos + block_text(lead, ls).len(), line_pairs(ls)),
        ),
        keys_and_values(s, pos) == Ok::<(int, Map<Seq<char>, Seq<char>>), Failure>(
            (pos + block_text(lead, ls).len(), pairs_to_map(line_pairs(ls))),
        ),
{
    reveal(holds_at);
    let b = block_text(lead, ls);
    let g = concat(lead);
    let lt = lines_text(ls);
    lemma_holds_split(s, pos, seq![123u8] + g + lt, seq![125u8]);
    lemma_holds_split(s, pos, seq![123u8] + g, lt);
    lemma_holds_split(s, pos, seq![123u8], g);
    let p1 = pos + 1;
    let p2 = p1 + g.len();
    let q = p2 + lt.len();
    assert(s[pos] == 123u8) by {
        assert(seq![123u8][0] == 123u8);
    }
    assert(s[q] == 125u8) by {
        assert(seq![125u8][0] == 125u8);
    }
    lemma_tag_byte(s, pos, 123u8);
    lemma_gap(s, p1, lead);
    lemma_lines_start(s, p2, ls, q);
    lemma_blanks_stop(s, p2);
    lemma_kv_list_lines(s, p2, ls, q);
    lemma_blanks_stop(s, q);
    lemma_tag_byte(s, q, 125u8);
    assert(q + 1 == pos + b.len());
}

/// Blank space and comment lines change no parameter: two blocks whose lines
/// say the same pairs give the same pairs, wherever they stand and whatever
/// blank space each holds.
pub proof fn lemma_blank_space_changes_no_parameter(
    s1: Seq<u8>,
    pos1: int,
    lead1: Seq<Seq<u8>>,
    ls1: Seq<PairLine>,
    s2: Seq<u8>,
    pos2: int,
    lead2: Seq<Seq<u8>>,
    ls2: Seq<PairLine>,
)
    requires
        0 <= pos1,
        pos1 + block_text(lead1, ls1).len() <= s1.len(),
        s1.subrange(pos1, pos1 + block_text(lead1, ls1).len()) == block_text(lead1, ls1),
        all_blank(lead1),
        lines_ok(ls1),
        0 <= pos2,
        pos2 + block_text(lead2, ls2).len() <= s2.len(),
        s2.subrange(pos2, pos2 + block_text(lead2, ls2).len()) == block_text(lead2, ls2),
        all_blank(lead2),
        lines_ok(ls2),
        ls1.len() == ls2.len(),
        forall|i: int|
            0 <= i < ls1.len() ==> (#[trigger] ls1[i]).name == ls2[i].name && ls1[i].value
                == ls2[i].value,
    ensures
        kv_block(s1, pos1) matches Ok((_, kvs1)) && kv_block(s2, pos2) matches Ok((_, kvs2))
            && kvs1 == kvs2,
{
    lemma_block_gives_its_lines(s1, pos1, lead1, ls1);
    lemma_block_gives_its_lines(s2, pos2, lead2, ls2);
    assert(line_pairs(ls1) =~= line_pairs(ls2)) by {
        assert forall|i: int| 0 <= i < ls1.len() implies line_pairs(ls1)[i] == line_pairs(
            ls2,
        )[i] by {
            assert(ls1[i].name == ls2[i].name);
        }
    }
}

proof fn lemma_holds_split(s: Seq<u8>, p: int, x: Seq<u8>, y: Seq<u8>)
    requires
        holds_at(s, p, x + y),
    ensures
        holds_at(s, p, x),
        holds_at(s, p + x.len(), y),
        0 <= p,
        p + x.len() + y.len() <= s.len(),
{
    reveal(holds_at);
    assert forall|i: int| 0 <= i < x.len() implies s[p + i] == #[trigger] x[i] by {
        assert((x + y)[i] == x[i]);
    }
    assert forall|i: int| 0 <= i < y.len() implies s[p + x.len() + i] == #[trigger] y[i] by {
        assert((x + y)[x.len() + i] == y[i]);
        assert(p + x.len() + i == p + (x.len() + i));
    }
}

proof fn lemma_scan_to(s: Seq<u8>, a: int, b: int, c: ByteClass)
    requires
        0 <= a <= b <= s.len(),
        forall|i: int| a <= i < b ==> in_class(c, #[trigger] s[i]),
        b == s.len() || !in_class(c, s[b]),
    ensures
        scan(s, a, c) == b,
    decreases b - a,
{
    if a < b {
        lemma_scan_to(s, a + 1, b, c);
    }
}

/// A one-byte token matches where its byte stands and fails with `Error`
/// where another byte stands.
proof fn lemma_tag_byte(s: Seq<u8>, p: int, b: u8)
    requires
        0 <= p < s.len(),
    ensures
        s[p] == b ==> tag(s, p, single(b)) == Ok::<int, Failure>(p + 1),
        s[p] != b ==> tag(s, p, single(b)) == Err::<int, Failure>(Failure::Error),
{
    assert(s.subrange(p, p + 1) =~= seq![s[p]]);
    assert(single(b).subrange(0, 1) =~= seq![b]);
    if s[p] != b {
        assert(s.subrange(p, p + 1)[0] != single(b).subrange(0, 1)[0]);
    }
}

/// A token whose first byte is not the one that stands there fails with
/// `Error`.
proof fn lemma_tag_first_differs(s: Seq<u8>, p: int, t: Seq<u8>)
    requires
        0 <= p < s.len(),
        t.len() >= 1,
        s[p] != t[0],
    ensures
        tag(s, p, t) == Err::<int, Failure>(Failure::Error),
{
    let m = if s.len() - p < t.len() {
        s.len() - p
    } else {
        t.len() as int
    };
    assert(s.subrange(p, p + m)[0] != t.subrange(0, m)[0]);
}

/// A white-space byte is skipped: blank space from it ends where blank space
/// from the next byte ends.
proof fn lemma_blank_ws(s: Seq<u8>, p: int)
    requires
        0 <= p < s.len(),
        s[p] == 32u8 || s[p] == 9u8 || s[p] == 13u8 || s[p] == 10u8,
    ensures
        blanks(s, p) == blanks(s, p + 1),
{
    lemma_scan(s, p, ByteClass::MultiSpace);
    lemma_scan(s, p + 1, ByteClass::MultiSpace);
    let e = scan(s, p, ByteClass::MultiSpace);
    assert(e == scan(s, p + 1, ByteClass::MultiSpace));
    assert(blank_item(s, p) == Ok::<int, Failure>(e));
    if p + 1 < s.len() && in_class(ByteClass::MultiSpace, s[p + 1]) {
        assert(blank_item(s, p + 1) == Ok::<int, Failure>(e));
    }
}

/// A comment line is skipped: blank space from its `#` ends where blank
/// space from the byte after its line feed ends.
proof fn lemma_blank_comment(s: Seq<u8>, p: int, e: int)
    requires
        0 <= p,
        p + 2 <= e <= s.len(),
        s[p] == 35u8,
        s[e - 1] == 10u8,
        forall|i: int| p < i < e - 1 ==> #[trigger] s[i] != 10u8 && s[i] != 13u8,
    ensures
        blanks(s, p) == blanks(s, e),
{
    assert(scan(s, p, ByteClass::MultiSpace) == p);
    lemma_tag_byte(s, p, 35u8);
    lemma_scan_to(s, p + 1, e - 1, ByteClass::NotLineEnd);
    lemma_tag_first_differs(s, e - 1, seq![13u8, 10u8]);
    lemma_tag_byte(s, e - 1, 10u8);
    assert(eol(s, e - 1) == Ok::<int, Failure>(e));
    assert(comment(s, p) == Ok::<int, Failure>(e));
    assert(blank_item(s, p) == Ok::<int, Failure>(e));
}

/// Blank space made of blank pieces is skipped whole.
proof fn lemma_gap(s: Seq<u8>, p: int, ps: Seq<Seq<u8>>)
    requires
        holds_at(s, p, concat(ps)),
        all_blank(ps),
    ensures
        blanks(s, p) == blanks(s, p + concat(ps).len()),
    decreases ps.len(),
{
    reveal(holds_at);
    if ps.len() > 0 {
        let x = ps[0];
        let rest = ps.drop_first();
        assert(blank_piece(x));
        assert(all_blank(rest)) by {
            assert forall|i: int| 0 <= i < rest.len() implies blank_piece(#[trigger] rest[i]) by {
                assert(rest[i] == ps[i + 1]);
            }
        }
        lemma_holds_split(s, p, x, concat(rest));
        assert(s[p] == x[0]) by {
            assert(s[p + 0] == x[0]);
        }
        if x.len() == 1 {
            lemma_blank_ws(s, p);
        } else {
            let e = p + x.len();
            assert(s[e - 1] == x[x.len() - 1]) by {
                assert(s[p + (x.len() - 1)] == x[x.len() - 1]);
            }
            assert forall|i: int| p < i < e - 1 implies #[trigger] s[i] != 10u8 && s[i] != 13u8 by {
                assert(s[p + (i - p)] == x[i - p]);
            }
            lemma_blank_comment(s, p, e);
        }
        lemma_gap(s, p + x.len(), rest);
    }
}

/// Blank space ends at once before a byte that starts none: not white space,
/// not `#`, and not the first byte of U+2028 or U+2029.
proof fn lemma_blanks_stop(s: Seq<u8>, q: int)
    requires
        0 <= q < s.len(),
        s[q] != 32u8 && s[q] != 9u8 && s[q] != 13u8 && s[q] != 10u8 && s[q] != 35u8 && s[q]
            != 0xe2u8,
    ensures
        blanks(s, q) == Ok::<int, Failure>(q),
{
    assert(scan(s, q, ByteClass::MultiSpace) == q);
    lemma_tag_byte(s, q, 35u8);
    lemma_tag_first_differs(s, q, seq![13u8, 10u8]);
    lemma_tag_first_differs(s, q, seq![10u8]);
    lemma_tag_first_differs(s, q, seq![0xe2u8, 0x80u8, 0xa8u8]);
    lemma_tag_first_differs(s, q, seq![0xe2u8, 0x80u8, 0xa9u8]);
    assert(blank_item(s, q) == Err::<int, Failure>(Failure::Error));
}

/// Where the lines stand before a `}`, the byte at the start of the lines is
/// the first letter or digit of a name, or that `}`.
proof fn lemma_lines_start(s: Seq<u8>, p: int, ls: Seq<PairLine>, q: int)
    requires
        holds_at(s, p, lines_text(ls)),
        q == p + lines_text(ls).len(),
        q < s.len(),
        s[q] == 125u8,
        lines_ok(ls),
    ensures
        p < s.len(),
        s[p] == 125u8 || (65u8 <= s[p] <= 90u8) || (97u8 <= s[p] <= 122u8) || (48u8 <= s[p]
            <= 57u8),
{
    reveal(holds_at);
    if ls.len() > 0 {
        let l = ls[0];
        assert(pair_line_ok(l));
        let t = lines_text(ls);
        assert(t == line_text(l) + lines_text(ls.drop_first()));
        assert(t[0] == l.name[0]);
        assert(s[p + 0] == t[0]);
    }
}

/// The pieces of a line stand where the line says.
proof fn lemma_line_parts(s: Seq<u8>, p: int, l: PairLine)
    requires
        holds_at(s, p, line_text(l)),
    ensures
        holds_at(s, p, l.name),
        holds_at(s, p + l.name.len(), l.before_eq),
        s[p + l.name.len() + l.before_eq.len()] == 61u8,
        holds_at(s, p + l.name.len() + l.before_eq.len() + 1, l.after_eq),
        holds_at(s, p + l.name.len() + l.before_eq.len() + 1 + l.after_eq.len(), value_text(l)),
        s[p + pair_text(l).len()] == 10u8,
        holds_at(s, p + pair_text(l).len() + 1, concat(l.after)),
        pair_text(l).len() == l.name.len() + l.before_eq.len() + 1 + l.after_eq.len()
            + value_text(l).len(),
{
    reveal(holds_at);
    let k = l.name;
    let a = l.before_eq;
    let b = l.after_eq;
    let v = value_text(l);
    let eq = seq![61u8];
    let nl = seq![10u8];
    lemma_holds_split(s, p, pair_text(l) + nl, concat(l.after));
    lemma_holds_split(s, p, pair_text(l), nl);
    lemma_holds_split(s, p, k + a + eq + b, v);
    lemma_holds_split(s, p, k + a + eq, b);
    lemma_holds_split(s, p, k + a, eq);
    lemma_holds_split(s, p, k, a);
    assert(s[p + (k + a).len() + 0] == eq[0]);
    assert(s[p + pair_text(l).len() + 0] == nl[0]);
}

/// A `name = value` line, followed by a byte that starts no blank space,
/// gives its pair and ends at that byte.
#[verifier::rlimit(40)]
proof fn lemma_key_value_line(s: Seq<u8>, p: int, l: PairLine)
    requires
        holds_at(s, p, line_text(l)),
        pair_line_ok(l),
        p + line_text(l).len() < s.len(),
        s[p + line_text(l).len()] != 32u8 && s[p + line_text(l).len()] != 9u8 && s[p
            + line_text(l).len()] != 13u8 && s[p + line_text(l).len()] != 10u8 && s[p
            + line_text(l).len()] != 35u8 && s[p + line_text(l).len()] != 0xe2u8,
    ensures
        key_value(s, p) == Ok::<(int, (Seq<char>, Seq<char>)), Failure>(
            (p + line_text(l).len(), line_pair(l)),
        ),
{
    reveal(holds_at);
    let k = l.name;
    let a = l.before_eq;
    let b = l.after_eq;
    let v = value_text(l);
    lemma_line_parts(s, p, l);
    let p1 = p + k.len();
    let p2 = p1 + a.len();
    let p3 = p2 + 1;
    let p4 = p3 + b.len();
    let p5 = p4 + v.len();
    let end = p + line_text(l).len();
    assert(p5 == p + pair_text(l).len());
    // The name.
    assert forall|i: int| p <= i < p1 implies in_class(ByteClass::Alnum, #[trigger] s[i]) by {
        assert(s[p + (i - p)] == k[i - p]);
    }
    if a.len() > 0 {
        assert(s[p1 + 0] == a[0]);
    }
    lemma_scan_to(s, p, p1, ByteClass::Alnum);
    assert(run(s, p, ByteClass::Alnum) == Ok::<int, Failure>(p1));
    assert(s.subrange(p, p1) =~= k) by {
        assert forall|i: int| 0 <= i < k.len() implies s.subrange(p, p1)[i] == k[i] by {
            assert(s[p + i] == k[i]);
        }
    }
    // The spacing before `=`.
    assert forall|i: int| p1 <= i < p2 implies in_class(ByteClass::Space, #[trigger] s[i]) by {
        assert(s[p1 + (i - p1)] == a[i - p1]);
    }
    lemma_scan_to(s, p1, p2, ByteClass::Space);
    assert(optional(run(s, p1, ByteClass::Space), p1) == Ok::<int, Failure>(p2));
    lemma_tag_byte(s, p2, 61u8);
    // The spacing after `=`.
    assert forall|i: int| p3 <= i < p4 implies in_class(ByteClass::Space, #[trigger] s[i]) by {
        assert(s[p3 + (i - p3)] == b[i - p3]);
    }
    assert(s[p4] == v[0]) by {
        assert(s[p4 + 0] == v[0]);
        if l.quoted {
            assert(v[0] == 34u8);
        }
    }
    lemma_scan_to(s, p3, p4, ByteClass::Space);
    assert(optional(run(s, p3, ByteClass::Space), p3) == Ok::<int, Failure>(p4));
    // The value.
    lemma_value_text(s, p4, l);
    // The line feed and the blank space after it.
    lemma_blank_ws(s, p5);
    lemma_gap(s, p5 + 1, l.after);
    lemma_blanks_stop(s, end);
    assert(blanks(s, p5) == Ok::<int, Failure>(end));
}

/// The value of a line, followed by its line feed, is read whole.
#[verifier::rlimit(40)]
proof fn lemma_value_text(s: Seq<u8>, p4: int, l: PairLine)
    requires
        holds_at(s, p4, value_text(l)),
        pair_line_ok(l),
        p4 + value_text(l).len() < s.len(),
        s[p4 + value_text(l).len()] == 10u8,
    ensures
        value(s, p4) == Ok::<(int, Seq<char>), Failure>(
            (p4 + value_text(l).len(), decode_utf8(l.value)),
        ),
{
    reveal(holds_at);
    let t = value_text(l);
    let v = l.value;
    let p5 = p4 + t.len();
    if l.quoted {
        let q = seq![34u8];
        lemma_holds_split(s, p4, q + v, q);
        lemma_holds_split(s, p4, q, v);
        assert(s[p4] == 34u8) by {
            assert(s[p4 + 0] == q[0]);
        }
        let e = p4 + 1 + v.len();
        assert(s[e] == 34u8) by {
            assert(s[e + 0] == q[0]);
        }
        lemma_tag_byte(s, p4, 34u8);
        assert forall|i: int| p4 + 1 <= i < e implies in_class(ByteClass::NotQuote, #[trigger] s[i]) by {
            assert(s[p4 + 1 + (i - (p4 + 1))] == v[i - (p4 + 1)]);
        }
        lemma_scan_to(s, p4 + 1, e, ByteClass::NotQuote);
        assert(s.subrange(p4 + 1, e) =~= v) by {
            assert forall|i: int| 0 <= i < v.len() implies s.subrange(p4 + 1, e)[i] == v[i] by {
                assert(s[p4 + 1 + i] == v[i]);
            }
        }
        lemma_tag_byte(s, e, 34u8);
        assert(e + 1 == p5);
        assert(quoted_string(s, p4) == Ok::<(int, Seq<char>), Failure>((p5, decode_utf8(v))));
    } else {
        assert(s[p4] == v[0]) by {
            assert(s[p4 + 0] == v[0]);
        }
        lemma_tag_byte(s, p4, 34u8);
        assert(quoted_string(s, p4) == Err::<(int, Seq<char>), Failure>(Failure::Error));
        assert forall|i: int| p4 <= i < p5 implies in_class(ByteClass::NotValueEnd, #[trigger] s[i]) by {
            assert(s[p4 + (i - p4)] == v[i - p4]);
        }
        lemma_scan_to(s, p4, p5, ByteClass::NotValueEnd);
        assert(s.subrange(p4, p5) =~= v) by {
            assert forall|i: int| 0 <= i < v.len() implies s.subrange(p4, p5)[i] == v[i] by {
                assert(s[p4 + i] == v[i]);
            }
        }
        assert(unquoted_value(s, p4) == Ok::<(int, Seq<char>), Failure>((p5, decode_utf8(v))));
    }
}

/// The lines, standing before a `}`, give their pairs in order and end at
/// the `}`.
#[verifier::rlimit(40)]
proof fn lemma_kv_list_lines(s: Seq<u8>, p: int, ls: Seq<PairLine>, q: int)
    requires
        holds_at(s, p, lines_text(ls)),
        q == p + lines_text(ls).len(),
        q < s.len(),
        s[q] == 125u8,
        lines_ok(ls),
    ensures
        kv_list(s, p) == Ok::<(int, Seq<(Seq<char>, Seq<char>)>), Failure>((q, line_pairs(ls))),
    decreases ls.len(),
{
    if ls.len() == 0 {
        assert(scan(s, p, ByteClass::Alnum) == p);
        assert(key_value(s, p) is Err);
        assert(line_pairs(ls) =~= Seq::<(Seq<char>, Seq<char>)>::empty());
    } else {
        let l = ls[0];
        let rest = ls.drop_first();
        assert(pair_line_ok(l));
        assert(lines_ok(rest)) by {
            assert forall|i: int| 0 <= i < rest.len() implies pair_line_ok(#[trigger] rest[i]) by {
                assert(rest[i] == ls[i + 1]);
            }
        }
        lemma_holds_split(s, p, line_text(l), lines_text(rest));
        let p2 = p + line_text(l).len();
        lemma_lines_start(s, p2, rest, q);
        lemma_key_value_line(s, p, l);
        assert(line_text(l).len() > 0);
        lemma_kv_list_lines(s, p2, rest, q);
        assert(seq![line_pair(l)] + line_pairs(rest) =~= line_pairs(ls));
    }
}

/// A processor as a section lists it: its name, blank space, its parameter
/// block if it has one, and blank space.
pub struct ProcLine {
    /// The processor's name.
    pub name: Seq<u8>,
    /// The blank space after the name.
    pub gap1: Seq<Seq<u8>>,
    /// The blank space after the `{` of its parameter block and the lines of
    /// the block, where it has one.
    pub block: Option<(Seq<Seq<u8>>, Seq<PairLine>)>,
    /// The blank space after the block, or after the first blank space.
    pub gap2: Seq<Seq<u8>>,
}

/// A processor without a block is set apart from what follows by blank
/// space.
pub open spec fn proc_line_ok(d: ProcLine) -> bool {
    &&& name_bytes(d.name)
    &&& all_blank(d.gap1)
    &&& all_blank(d.gap2)
    &&& match d.block {
        Some((lead, ls)) => all_blank(lead) && lines_ok(ls),
        None => d.gap1.len() + d.gap2.len() > 0,
    }
}

pub open spec fn procs_ok(ds: Seq<ProcLine>) -> bool {
    forall|i: int| 0 <= i < ds.len() ==> proc_line_ok(#[trigger] ds[i])
}

pub open spec fn proc_block_text(d: ProcLine) -> Seq<u8> {
    match d.block {
        Some((lead, ls)) => block_text(lead, ls),
        None => Seq::empty(),
    }
}

pub open spec fn proc_text(d: ProcLine) -> Seq<u8> {
    d.name + concat(d.gap1) + proc_block_text(d) + concat(d.gap2)
}

pub open spec fn procs_text(ds: Seq<ProcLine>) -> Seq<u8>
    decreases ds.len(),
{
    if ds.len() == 0 {
        Seq::empty()
    } else {
        proc_text(ds[0]) + procs_text(ds.drop_first())
    }
}

/// What the configuration says of a processor: its name and, where it has
/// a block, the parameters of its lines.
pub open spec fn proc_decl(d: ProcLine) -> (Seq<char>, Option<Map<Seq<char>, Seq<char>>>) {
    (
        d.name.map_values(|b: u8| b as char),
        match d.block {
            Some((lead, ls)) => Some(pairs_to_map(line_pairs(ls))),
            None => None,
        },
    )
}

pub open spec fn proc_decls(ds: Seq<ProcLine>) -> Seq<
    (Seq<char>, Option<Map<Seq<char>, Seq<char>>>),
> {
    ds.map_values(|d: ProcLine| proc_decl(d))
}

/// The word that opens a section of the kind.
pub open spec fn section_word(k: Section) -> Seq<u8> {
    match k {
        Section::Input => seq![105u8, 110u8, 112u8, 117u8, 116u8],
        Section::Output => seq![111u8, 117u8, 116u8, 112u8, 117u8, 116u8],
    }
}

/// A section: its word, blank space, `{`, blank space, the processors, `}`,
/// blank space.
pub open spec fn section_text(
    k: Section,
    g0: Seq<Seq<u8>>,
    g1: Seq<Seq<u8>>,
    ds: Seq<ProcLine>,
    g2: Seq<Seq<u8>>,
) -> Seq<u8> {
    section_word(k) + concat(g0) + seq![123u8] + concat(g1) + procs_text(ds) + seq![125u8]
        + concat(g2)
}

/// A file that holds one section, written processor by processor with
/// blank space and `#` comment lines anywhere between the parts, parses to
/// that section's processors, in order, each with the parameters of its
/// block: they are the inputs of an `input` section and the outputs of an
/// `output` section, and the whole file is read.
#[verifier::rlimit(60)]
#[verifier::spinoff_prover]
pub proof fn lemma_one_section_file(
    k: Section,
    g0: Seq<Seq<u8>>,
    g1: Seq<Seq<u8>>,
    ds: Seq<ProcLine>,
    g2: Seq<Seq<u8>>,
)
    requires
        all_blank(g0),
        all_blank(g1),
        all_blank(g2),
        procs_ok(ds),
    ensures
        configuration(section_text(k, g0, g1, ds, g2)) == Ok::<(int, SpecConfig), Failure>(
            (
                section_text(k, g0, g1, ds, g2).len() as int,
                match k {
                    Section::Input => (proc_decls(ds), Seq::empty()),
                    Section::Output => (Seq::empty(), proc_decls(ds)),
                },
            ),
        ),
{
    reveal(holds_at);
    let s = section_text(k, g0, g1, ds, g2);
    assert(holds_at(s, 0, s)) by {
        assert forall|i: int| 0 <= i < s.len() implies s[0 + i] == #[trigger] s[i] by {}
    }
    lemma_section_at(s, 0, k, g0, g1, ds, g2);
    let first = (k, proc_decls(ds));
    assert(section_list(s, s.len() as int) == Ok::<
        (int, Seq<(Section, Seq<SpecDecl>)>),
        Failure,
    >((s.len() as int, Seq::empty())));
    let all = seq![first] + Seq::<(Section, Seq<SpecDecl>)>::empty();
    assert(all.drop_last() =~= Seq::<(Section, Seq<SpecDecl>)>::empty());
    assert(all.last() == first);
    assert(gather(all.drop_last(), Section::Input) =~= Seq::<SpecDecl>::empty());
    assert(gather(all.drop_last(), Section::Output) =~= Seq::<SpecDecl>::empty());
    assert(gather(all, Section::Input) =~= (if k == Section::Input {
        proc_decls(ds)
    } else {
        Seq::empty()
    }));
    assert(gather(all, Section::Output) =~= (if k == Section::Output {
        proc_decls(ds)
    } else {
        Seq::empty()
    }));
}

/// A section, followed by the end of the input or by a byte that starts no
/// blank space, gives its kind and its processors and ends there.
#[verifier::rlimit(60)]
#[verifier::spinoff_prover]
proof fn lemma_section_at(
    s: Seq<u8>,
    pos: int,
    k: Section,
    g0: Seq<Seq<u8>>,
    g1: Seq<Seq<u8>>,
    ds: Seq<ProcLine>,
    g2: Seq<Seq<u8>>,
)
    requires
        holds_at(s, pos, section_text(k, g0, g1, ds, g2)),
        all_blank(g0),
        all_blank(g1),
        all_blank(g2),
        procs_ok(ds),
        pos + section_text(k, g0, g1, ds, g2).len() == s.len() || stop_byte(
            s[pos + section_text(k, g0, g1, ds, g2).len()],
        ),
    ensures
        section(s, pos) == Ok::<(int, (Section, Seq<SpecDecl>)), Failure>(
            (pos + section_text(k, g0, g1, ds, g2).len(), (k, proc_decls(ds))),
        ),
{
    let w = section_word(k);
    let c0 = concat(g0);
    let c1 = concat(g1);
    let pt = procs_text(ds);
    let c2 = concat(g2);
    let ob = seq![123u8];
    let cb = seq![125u8];
    lemma_holds_split(s, pos, w + c0 + ob + c1 + pt + cb, c2);
    lemma_holds_split(s, pos, w + c0 + ob + c1 + pt, cb);
    lemma_holds_split(s, pos, w + c0 + ob + c1, pt);
    lemma_holds_split(s, pos, w + c0 + ob, c1);
    lemma_holds_split(s, pos, w + c0, ob);
    lemma_holds_split(s, pos, w, c0);
    let p1 = pos + w.len();
    let p2 = p1 + c0.len();
    let p3 = p2 + 1;
    let p4 = p3 + c1.len();
    let p5 = p4 + pt.len();
    let p7 = p5 + 1;
    let end = p7 + c2.len();
    assert(s[p2] == 123u8) by {
        reveal(holds_at);
        assert(s[p2 + 0] == ob[0]);
    }
    assert(s[p5] == 125u8) by {
        reveal(holds_at);
        assert(s[p5 + 0] == cb[0]);
    }
    assert(section_kind(s, pos) == Ok::<(int, Section), Failure>((p1, k))) by {
        lemma_tag_all(s, pos, w);
        match k {
            Section::Input => {
                assert(w =~= kw_input());
            },
            Section::Output => {
                assert(w =~= kw_output());
                assert(s[pos] == w[0]) by {
                    reveal(holds_at);
                    assert(s[pos + 0] == w[0]);
                }
                lemma_tag_first_differs(s, pos, kw_input());
            },
        }
    }
    assert(blanks(s, p1) == Ok::<int, Failure>(p2)) by {
        lemma_gap(s, p1, g0);
        lemma_blanks_stop(s, p2);
    }
    assert(tag(s, p2, single(123u8)) == Ok::<int, Failure>(p3)) by {
        lemma_tag_byte(s, p2, 123u8);
    }
    assert(blanks(s, p3) == Ok::<int, Failure>(p4)) by {
        lemma_gap(s, p3, g1);
        lemma_procs_start(s, p4, ds, p5);
        lemma_blanks_stop(s, p4);
    }
    assert(processor_list(s, p4) == Ok::<(int, Seq<SpecDecl>), Failure>((p5, proc_decls(ds))))
        by {
        lemma_proc_list(s, p4, ds, p5);
    }
    assert(blanks(s, p5) == Ok::<int, Failure>(p5)) by {
        lemma_blanks_stop(s, p5);
    }
    assert(tag(s, p5, single(125u8)) == Ok::<int, Failure>(p7)) by {
        lemma_tag_byte(s, p5, 125u8);
    }
    assert(blanks(s, p7) == Ok::<int, Failure>(end)) by {
        lemma_gap(s, p7, g2);
        if end < s.len() {
            lemma_blanks_stop(s, end);
        }
    }
    lemma_section_parts(s, pos, p1, p2, p3, p4, p5, p7, end, k, proc_decls(ds));
    assert(end == pos + section_text(k, g0, g1, ds, g2).len());
}

/// A section is its word, blank space, `{`, blank space, processors, blank
/// space, `}` and blank space, each read where the one before ends.
proof fn lemma_section_parts(
    s: Seq<u8>,
    pos: int,
    p1: int,
    p2: int,
    p3: int,
    p4: int,
    p5: int,
    p7: int,
    end: int,
    k: Section,
    decls: Seq<SpecDecl>,
)
    requires
        section_kind(s, pos) == Ok::<(int, Section), Failure>((p1, k)),
        blanks(s, p1) == Ok::<int, Failure>(p2),
        tag(s, p2, single(123u8)) == Ok::<int, Failure>(p3),
        blanks(s, p3) == Ok::<int, Failure>(p4),
        processor_list(s, p4) == Ok::<(int, Seq<SpecDecl>), Failure>((p5, decls)),
        blanks(s, p5) == Ok::<int, Failure>(p5),
        tag(s, p5, single(125u8)) == Ok::<int, Failure>(p7),
        blanks(s, p7) == Ok::<int, Failure>(end),
    ensures
        section(s, pos) == Ok::<(int, (Section, Seq<SpecDecl>)), Failure>((end, (k, decls))),
{
}

/// A byte that starts no blank space: not white space, not `#`, and not the
/// first byte of U+2028 or U+2029.
pub open spec fn stop_byte(b: u8) -> bool {
    b != 32u8 && b != 9u8 && b != 13u8 && b != 10u8 && b != 35u8 && b != 0xe2u8
}

/// A token that stands whole at the position matches there.
proof fn lemma_tag_all(s: Seq<u8>, p: int, t: Seq<u8>)
    requires
        holds_at(s, p, t),
    ensures
        tag(s, p, t) == Ok::<int, Failure>(p + t.len()),
{
    reveal(holds_at);
    assert(s.subrange(p, p + t.len()) =~= t.subrange(0, t.len() as int)) by {
        assert forall|i: int| 0 <= i < t.len() implies s.subrange(p, p + t.len())[i] == t[i] by {
            assert(s[p + i] == t[i]);
        }
    }
}

/// Blank pieces start with white space or `#`, and blank space made of
/// pieces is empty only where there are none.
proof fn lemma_gap_first(ps: Seq<Seq<u8>>)
    requires
        all_blank(ps),
    ensures
        ps.len() > 0 ==> concat(ps).len() > 0 && !stop_byte(concat(ps)[0]),
{
    if ps.len() > 0 {
        assert(blank_piece(ps[0]));
        assert(concat(ps)[0] == ps[0][0]);
    }
}

/// Where the processors stand before a `}`, the byte at their start is the
/// first letter or digit of a name, or that `}`.
proof fn lemma_procs_start(s: Seq<u8>, p: int, ds: Seq<ProcLine>, q: int)
    requires
        holds_at(s, p, procs_text(ds)),
        q == p + procs_text(ds).len(),
        q < s.len(),
        s[q] == 125u8,
        procs_ok(ds),
    ensures
        p < s.len(),
        s[p] == 125u8 || (65u8 <= s[p] <= 90u8) || (97u8 <= s[p] <= 122u8) || (48u8 <= s[p]
            <= 57u8),
{
    reveal(holds_at);
    if ds.len() > 0 {
        let d = ds[0];
        assert(proc_line_ok(d));
        let t = procs_text(ds);
        assert(t == proc_text(d) + procs_text(ds.drop_first()));
        assert(t[0] == d.name[0]);
        assert(s[p + 0] == t[0]);
    }
}

/// A processor, followed by the first letter or digit of another name or by
/// a `}`, gives its name and its parameters and ends there.
#[verifier::rlimit(60)]
#[verifier::spinoff_prover]
proof fn lemma_proc_line(s: Seq<u8>, p: int, d: ProcLine)
    requires
        holds_at(s, p, proc_text(d)),
        proc_line_ok(d),
        p + proc_text(d).len() < s.len(),
        s[p + proc_text(d).len()] == 125u8 || (65u8 <= s[p + proc_text(d).len()] <= 90u8) || (
        97u8 <= s[p + proc_text(d).len()] <= 122u8) || (48u8 <= s[p + proc_text(d).len()]
            <= 57u8),
    ensures
        processor_and_params(s, p) == Ok::<(int, SpecDecl), Failure>(
            (p + proc_text(d).len(), proc_decl(d)),
        ),
{
    let k = d.name;
    let c1 = concat(d.gap1);
    let bt = proc_block_text(d);
    let c2 = concat(d.gap2);
    lemma_holds_split(s, p, k + c1 + bt, c2);
    lemma_holds_split(s, p, k + c1, bt);
    lemma_holds_split(s, p, k, c1);
    let p2 = p + k.len();
    let pb = p2 + c1.len();
    let pe = pb + bt.len();
    let end = pe + c2.len();
    assert(end == p + proc_text(d).len());
    assert(blanks(s, p) == Ok::<int, Failure>(p)) by {
        reveal(holds_at);
        assert(s[p + 0] == k[0]);
        lemma_blanks_stop(s, p);
    }
    assert(processor_name(s, p) == Ok::<(int, Seq<char>), Failure>(
        (p2, k.map_values(|b: u8| b as char)),
    )) by {
        lemma_proc_name(s, p, d);
    }
    match d.block {
        Some((lead, ls)) => {
            assert(blanks(s, p2) == Ok::<int, Failure>(pb)) by {
                lemma_gap(s, p2, d.gap1);
                reveal(holds_at);
                assert(s[pb + 0] == bt[0]);
                lemma_blanks_stop(s, pb);
            }
            assert(keys_and_values(s, pb) == Ok::<(int, Map<Seq<char>, Seq<char>>), Failure>(
                (pe, pairs_to_map(line_pairs(ls))),
            )) by {
                lemma_block_at(s, pb, lead, ls);
            }
            assert(blanks(s, pe) == Ok::<int, Failure>(end)) by {
                lemma_gap(s, pe, d.gap2);
                lemma_blanks_stop(s, end);
            }
        },
        None => {
            assert(pb == pe);
            assert(blanks(s, p2) == Ok::<int, Failure>(end)) by {
                lemma_gap(s, p2, d.gap1);
                lemma_gap(s, pe, d.gap2);
                lemma_blanks_stop(s, end);
            }
            assert(keys_and_values(s, end) == Err::<(int, Map<Seq<char>, Seq<char>>), Failure>(
                Failure::Error,
            )) by {
                lemma_tag_byte(s, end, 123u8);
            }
            assert(blanks(s, end) == Ok::<int, Failure>(end)) by {
                lemma_blanks_stop(s, end);
            }
        },
    }
}

/// The name of a processor is read whole: what follows it is blank space, a
/// `{`, or, for a processor without a block, the blank space before the
/// next one.
#[verifier::rlimit(40)]
proof fn lemma_proc_name(s: Seq<u8>, p: int, d: ProcLine)
    requires
        holds_at(s, p, d.name + concat(d.gap1) + proc_block_text(d) + concat(d.gap2)),
        proc_line_ok(d),
        p + proc_text(d).len() < s.len(),
    ensures
        processor_name(s, p) == Ok::<(int, Seq<char>), Failure>(
            (p + d.name.len(), d.name.map_values(|b: u8| b as char)),
        ),
{
    reveal(holds_at);
    let k = d.name;
    let c1 = concat(d.gap1);
    let bt = proc_block_text(d);
    let c2 = concat(d.gap2);
    lemma_holds_split(s, p, k + c1 + bt, c2);
    lemma_holds_split(s, p, k + c1, bt);
    lemma_holds_split(s, p, k, c1);
    let p2 = p + k.len();
    let pb = p2 + c1.len();
    let pe = pb + bt.len();
    lemma_gap_first(d.gap1);
    lemma_gap_first(d.gap2);
    assert forall|i: int| p <= i < p2 implies in_class(ByteClass::Alnum, #[trigger] s[i]) by {
        assert(s[p + (i - p)] == k[i - p]);
    }
    assert(!in_class(ByteClass::Alnum, s[p2])) by {
        if c1.len() > 0 {
            assert(s[p2 + 0] == c1[0]);
        } else if bt.len() > 0 {
            assert(s[pb + 0] == bt[0]);
            assert(bt[0] == 123u8);
        } else if c2.len() > 0 {
            assert(s[pe + 0] == c2[0]);
        } else {
            assert(d.block is Some) by {
                if d.block is None {
                    assert(d.gap1.len() + d.gap2.len() > 0);
                }
            }
            assert(bt.len() > 0);
        }
    }
    lemma_scan_to(s, p, p2, ByteClass::Alnum);
    assert(s.subrange(p, p2) =~= k) by {
        assert forall|i: int| 0 <= i < k.len() implies s.subrange(p, p2)[i] == k[i] by {
            assert(s[p + i] == k[i]);
        }
    }
}

/// The processors, standing before a `}`, give their declarations in order
/// and end at the `}`.
#[verifier::rlimit(40)]
proof fn lemma_proc_list(s: Seq<u8>, p: int, ds: Seq<ProcLine>, q: int)
    requires
        holds_at(s, p, procs_text(ds)),
        q == p + procs_text(ds).len(),
        q < s.len(),
        s[q] == 125u8,
        procs_ok(ds),
    ensures
        processor_list(s, p) == Ok::<(int, Seq<SpecDecl>), Failure>((q, proc_decls(ds))),
    decreases ds.len(),
{
    if ds.len() == 0 {
        assert(procs_text(ds).len() == 0);
        reveal(holds_at);
        lemma_blanks_stop(s, p);
        assert(scan(s, p, ByteClass::Alnum) == p);
        assert(processor_and_params(s, p) == Err::<(int, SpecDecl), Failure>(Failure::Error));
        assert(proc_decls(ds) =~= Seq::<SpecDecl>::empty());
    } else {
        let d = ds[0];
        let rest = ds.drop_first();
        assert(proc_line_ok(d));
        assert(procs_ok(rest)) by {
            assert forall|i: int| 0 <= i < rest.len() implies proc_line_ok(#[trigger] rest[i]) by {
                assert(rest[i] == ds[i + 1]);
            }
        }
        lemma_holds_split(s, p, proc_text(d), procs_text(rest));
        let p2 = p + proc_text(d).len();
        assert(processor_and_params(s, p) == Ok::<(int, SpecDecl), Failure>((p2, proc_decl(d))))
            by {
            lemma_procs_start(s, p2, rest, q);
            lemma_proc_line(s, p, d);
        }
        assert(proc_text(d).len() > 0);
        lemma_proc_list(s, p2, rest, q);
        assert(seq![proc_decl(d)] + proc_decls(rest) =~= proc_decls(ds));
    }
}

} // verus!
