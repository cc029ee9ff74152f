//! The grammar of the configuration file: `input` and `output` sections,
//! each listing processors by name, each name with an optional block of
//! `name = value` parameters, with blank space and `#` comments between
//! them.
//!
//! Every rule is a spec function on the file's bytes and a position in them;
//! it either matches and gives the position after what it matched, fails on
//! what it read (`Failure::Error`), or needs more bytes than the file holds to
//! decide (`Failure::Incomplete`). The executable parser computes exactly
//! these functions (see `config`).

use vstd::prelude::*;
use vstd::utf8::*;

use crate::params::{lemma_pairs_to_map_dom, pairs_to_map};

verus! {

/// Why a rule did not match.
#[derive(Clone, Copy, PartialEq, Eq, Debug, Structural)]
pub enum Failure {
    /// The bytes at the position do not fit the rule.
    Error,
    /// The rule cannot be decided before more bytes come.
    Incomplete,
}

/// The classes of bytes that the grammar reads runs of.
#[derive(Clone, Copy, PartialEq, Eq, Debug, Structural)]
pub enum ByteClass {
    /// ASCII letters and digits.
    Alnum,
    /// Space and tab.
    Space,
    /// Space, tab, carriage return and line feed.
    MultiSpace,
    /// Anything but carriage return and line feed.
    NotLineEnd,
    /// Anything but a double quote.
    NotQuote,
    /// Anything that does not end an unquoted value: line feed, carriage
    /// return and `#` do.
    NotValueEnd,
}

pub open spec fn in_class(c: ByteClass, b: u8) -> bool {
    match c {
        ByteClass::Alnum => (65 <= b <= 90) || (97 <= b <= 122) || (48 <= b <= 57),
        ByteClass::Space => b == 32 || b == 9,
        ByteClass::MultiSpace => b == 32 || b == 9 || b == 13 || b == 10,
        ByteClass::NotLineEnd => b != 13 && b != 10,
        ByteClass::NotQuote => b != 34,
        ByteClass::NotValueEnd => b != 10 && b != 13 && b != 35,
    }
}

/// The two kinds of section of the configuration.
#[derive(Clone, Copy, PartialEq, Eq, Debug, Structural)]
pub enum Section {
    /// `input { .. }`: where lines come from.
    Input,
    /// `output { .. }`: where lines go.
    Output,
}

/// `"\r\n"`
pub open spec fn crlf() -> Seq<u8> {
    seq![13u8, 10u8]
}

/// `"\n"`
pub open spec fn lf() -> Seq<u8> {
    seq![10u8]
}

/// U+2028, the line separator, in UTF-8.
pub open spec fn line_sep() -> Seq<u8> {
    seq![0xe2u8, 0x80u8, 0xa8u8]
}

/// U+2029, the paragraph separator, in UTF-8.
pub open spec fn para_sep() -> Seq<u8> {
    seq![0xe2u8, 0x80u8, 0xa9u8]
}

/// A one-byte token.
pub open spec fn single(b: u8) -> Seq<u8> {
    seq![b]
}

/// `"input"`
pub open spec fn kw_input() -> Seq<u8> {
    seq![105u8, 110u8, 112u8, 117u8, 116u8]
}

/// `"output"`
pub open spec fn kw_output() -> Seq<u8> {
    seq![111u8, 117u8, 116u8, 112u8, 117u8, 116u8]
}

pub open spec fn quote() -> u8 {
    34
}

pub open spec fn hash() -> u8 {
    35
}

pub open spec fn equals() -> u8 {
    61
}

pub open spec fn open_brace() -> u8 {
    123
}

pub open spec fn close_brace() -> u8 {
    125
}

/// The first of the two results that does not fail with `Error`; a first
/// result that is `Incomplete` ends the choice.
pub open spec fn alt<T>(first: Result<T, Failure>, second: Result<T, Failure>) -> Result<
    T,
    Failure,
> {
    match first {
        Err(Failure::Error) => second,
        _ => first,
    }
}

/// The end of the run of bytes of class `c` that starts at `pos`.
pub open spec fn scan(s: Seq<u8>, pos: int, c: ByteClass) -> int
    decreases s.len() - pos,
{
    if 0 <= pos < s.len() && in_class(c, s[pos]) {
        scan(s, pos + 1, c)
    } else {
        pos
    }
}

/// A non-empty run of bytes of class `c`.
pub open spec fn run(s: Seq<u8>, pos: int, c: ByteClass) -> Result<int, Failure> {
    let e = scan(s, pos, c);
    if e == pos {
        Err(Failure::Error)
    } else {
        Ok(e)
    }
}

/// A rule that may be absent: where it fails with `Error`, nothing is
/// consumed.
pub open spec fn optional(r: Result<int, Failure>, pos: int) -> Result<int, Failure> {
    match r {
        Err(Failure::Error) => Ok(pos),
        _ => r,
    }
}

/// The token `t`. Where the bytes that are there agree with `t` but are
/// fewer than `t`, it is `Incomplete`.
pub open spec fn tag(s: Seq<u8>, pos: int, t: Seq<u8>) -> Result<int, Failure> {
    let m = if s.len() - pos < t.len() { s.len() - pos } else { t.len() as int };
    if s.subrange(pos, pos + m) != t.subrange(0, m) {
        Err(Failure::Error)
    } else if m < t.len() {
        Err(Failure::Incomplete)
    } else {
        Ok(pos + t.len())
    }
}

/// The end of the file.
pub open spec fn eof(s: Seq<u8>, pos: int) -> Result<int, Failure> {
    if pos == s.len() {
        Ok(pos)
    } else {
        Err(Failure::Error)
    }
}

/// A line ending: CR LF, LF, U+2028 or U+2029.
pub open spec fn eol(s: Seq<u8>, pos: int) -> Result<int, Failure> {
    alt(
        tag(s, pos, crlf()),
        alt(tag(s, pos, lf()), alt(tag(s, pos, line_sep()), tag(s, pos, para_sep()))),
    )
}

/// `#`, the rest of the line, and a line ending or the end of the file.
pub open spec fn comment(s: Seq<u8>, pos: int) -> Result<int, Failure> {
    match tag(s, pos, single(hash())) {
        Ok(p) => {
            let q = scan(s, p, ByteClass::NotLineEnd);
            alt(eol(s, q), eof(s, q))
        },
        Err(e) => Err(e),
    }
}

/// One piece of blank space: white space, a comment, a line ending, or the
/// end of the file.
pub open spec fn blank_item(s: Seq<u8>, pos: int) -> Result<int, Failure> {
    alt(
        run(s, pos, ByteClass::MultiSpace),
        alt(comment(s, pos), alt(eol(s, pos), eof(s, pos))),
    )
}

/// As many pieces of blank space as there are.
pub open spec fn blanks(s: Seq<u8>, pos: int) -> Result<int, Failure>
    decreases s.len() - pos,
{
    if pos >= s.len() {
        Ok(pos)
    } else {
        match blank_item(s, pos) {
            Ok(p) => if pos < p <= s.len() {
                blanks(s, p)
            } else {
                Err(Failure::Error)
            },
            Err(Failure::Error) => Ok(pos),
            Err(Failure::Incomplete) => Err(Failure::Incomplete),
        }
    }
}

/// The bytes from `from` to `to`, decoded, where they are well-formed UTF-8.
pub open spec fn utf8_field(s: Seq<u8>, from: int, to: int) -> Option<Seq<char>> {
    let b = s.subrange(from, to);
    if valid_utf8(b) {
        Some(decode_utf8(b))
    } else {
        None
    }
}

/// The bytes from `from` to `to` as characters, one for each byte: what
/// UTF-8 decoding gives for bytes that are all ASCII.
pub open spec fn ascii_field(s: Seq<u8>, from: int, to: int) -> Seq<char> {
    s.subrange(from, to).map_values(|b: u8| b as char)
}

/// A value between double quotes.
pub open spec fn quoted_string(s: Seq<u8>, pos: int) -> Result<(int, Seq<char>), Failure> {
    match tag(s, pos, single(quote())) {
        Err(e) => Err(e),
        Ok(p1) => if p1 >= s.len() {
            Err(Failure::Incomplete)
        } else {
            let e = scan(s, p1, ByteClass::NotQuote);
            if e >= s.len() {
                Err(Failure::Error)
            } else {
                match utf8_field(s, p1, e) {
                    None => Err(Failure::Error),
                    Some(v) => match tag(s, e, single(quote())) {
                        Ok(p3) => Ok((p3, v)),
                        Err(x) => Err(x),
                    },
                }
            }
        },
    }
}

/// A value without quotes: everything up to the next line feed, carriage
/// return or `#`, which must come.
pub open spec fn unquoted_value(s: Seq<u8>, pos: int) -> Result<(int, Seq<char>), Failure> {
    if pos >= s.len() {
        Err(Failure::Incomplete)
    } else {
        let e = scan(s, pos, ByteClass::NotValueEnd);
        if e >= s.len() {
            Err(Failure::Error)
        } else {
            match utf8_field(s, pos, e) {
                None => Err(Failure::Error),
                Some(v) => Ok((e, v)),
            }
        }
    }
}

pub open spec fn value(s: Seq<u8>, pos: int) -> Result<(int, Seq<char>), Failure> {
    alt(quoted_string(s, pos), unquoted_value(s, pos))
}

/// `name = value`, then blank space.
pub open spec fn key_value(s: Seq<u8>, pos: int) -> Result<(int, (Seq<char>, Seq<char>)), Failure> {
    match run(s, pos, ByteClass::Alnum) {
        Err(e) => Err(e),
        Ok(p1) => {
            let k = ascii_field(s, pos, p1);
            match optional(run(s, p1, ByteClass::Space), p1) {
                Err(e) => Err(e),
                Ok(p2) => match tag(s, p2, single(equals())) {
                    Err(e) => Err(e),
                    Ok(p3) => match optional(run(s, p3, ByteClass::Space), p3) {
                        Err(e) => Err(e),
                        Ok(p4) => match value(s, p4) {
                            Err(e) => Err(e),
                            Ok((p5, v)) => match blanks(s, p5) {
                                Err(e) => Err(e),
                                Ok(p6) => Ok((p6, (k, v))),
                            },
                        },
                    },
                },
            }
        },
    }
}

/// As many `name = value` pairs as there are, in order.
pub open spec fn kv_list(s: Seq<u8>, pos: int) -> Result<
    (int, Seq<(Seq<char>, Seq<char>)>),
    Failure,
>
    decreases s.len() - pos,
{
    if pos >= s.len() {
        Ok((pos, Seq::empty()))
    } else {
        match key_value(s, pos) {
            Err(Failure::Error) => Ok((pos, Seq::empty())),
            Err(Failure::Incomplete) => Err(Failure::Incomplete),
            Ok((p, kv)) => if pos < p <= s.len() {
                match kv_list(s, p) {
                    Ok((q, rest)) => Ok((q, seq![kv] + rest)),
                    Err(e) => Err(e),
                }
            } else {
                Err(Failure::Error)
            },
        }
    }
}

/// `{`, the pairs, `}`, with blank space around the pairs.
pub open spec fn kv_block(s: Seq<u8>, pos: int) -> Result<
    (int, Seq<(Seq<char>, Seq<char>)>),
    Failure,
> {
    match tag(s, pos, single(open_brace())) {
        Err(e) => Err(e),
        Ok(p1) => match blanks(s, p1) {
            Err(e) => Err(e),
            Ok(p2) => match kv_list(s, p2) {
                Err(e) => Err(e),
                Ok((p3, kvs)) => match blanks(s, p3) {
                    Err(e) => Err(e),
                    Ok(p4) => match tag(s, p4, single(close_brace())) {
                        Err(e) => Err(e),
                        Ok(p5) => Ok((p5, kvs)),
                    },
                },
            },
        },
    }
}

/// The parameters of a block: its pairs, a later one with the same name
/// replacing an earlier one.
pub open spec fn keys_and_values(s: Seq<u8>, pos: int) -> Result<
    (int, Map<Seq<char>, Seq<char>>),
    Failure,
> {
    match kv_block(s, pos) {
        Ok((p, kvs)) => Ok((p, pairs_to_map(kvs))),
        Err(e) => Err(e),
    }
}

/// What the configuration says of one processor: its name and, where a
/// block follows the name, its parameters.
pub type SpecDecl = (Seq<char>, Option<Map<Seq<char>, Seq<char>>>);

/// The inputs and the outputs that a configuration lists.
pub type SpecConfig = (Seq<SpecDecl>, Seq<SpecDecl>);

/// The name of a processor: one or more ASCII letters and digits.
pub open spec fn processor_name(s: Seq<u8>, pos: int) -> Result<(int, Seq<char>), Failure> {
    match run(s, pos, ByteClass::Alnum) {
        Err(e) => Err(e),
        Ok(p) => Ok((p, ascii_field(s, pos, p))),
    }
}

pub open spec fn finish_decl(s: Seq<u8>, pos: int, decl: SpecDecl) -> Result<
    (int, SpecDecl),
    Failure,
> {
    match blanks(s, pos) {
        Err(e) => Err(e),
        Ok(p) => Ok((p, decl)),
    }
}

/// A processor name, then its parameter block if one follows, with blank
/// space around them.
pub open spec fn processor_and_params(s: Seq<u8>, pos: int) -> Result<(int, SpecDecl), Failure> {
    match blanks(s, pos) {
        Err(e) => Err(e),
        Ok(p1) => match processor_name(s, p1) {
            Err(e) => Err(e),
            Ok((p2, n)) => match blanks(s, p2) {
                Err(e) => Err(e),
                Ok(p3) => match keys_and_values(s, p3) {
                    Err(Failure::Incomplete) => Err(Failure::Incomplete),
                    Err(Failure::Error) => finish_decl(s, p3, (n, None)),
                    Ok((p4, m)) => finish_decl(s, p4, (n, Some(m))),
                },
            },
        },
    }
}

/// As many processors as there are, in order.
pub open spec fn processor_list(s: Seq<u8>, pos: int) -> Result<(int, Seq<SpecDecl>), Failure>
    decreases s.len() - pos,
{
    if pos >= s.len() {
        Ok((pos, Seq::empty()))
    } else {
        match processor_and_params(s, pos) {
            Err(Failure::Error) => Ok((pos, Seq::empty())),
            Err(Failure::Incomplete) => Err(Failure::Incomplete),
            Ok((p, d)) => if pos < p <= s.len() {
                match processor_list(s, p) {
                    Ok((q, rest)) => Ok((q, seq![d] + rest)),
                    Err(e) => Err(e),
                }
            } else {
                Err(Failure::Error)
            },
        }
    }
}

pub open spec fn section_tag(s: Seq<u8>, pos: int, t: Seq<u8>, k: Section) -> Result<
    (int, Section),
    Failure,
> {
    match tag(s, pos, t) {
        Ok(p) => Ok((p, k)),
        Err(e) => Err(e),
    }
}

/// `input` or `output`.
pub open spec fn section_kind(s: Seq<u8>, pos: int) -> Result<(int, Section), Failure> {
    alt(
        section_tag(s, pos, kw_input(), Section::Input),
        section_tag(s, pos, kw_output(), Section::Output),
    )
}

/// `input` or `output`, `{`, the processors, `}`, with blank space between
/// and after.
pub open spec fn section(s: Seq<u8>, pos: int) -> Result<(int, (Section, Seq<SpecDecl>)), Failure> {
    match section_kind(s, pos) {
        Err(e) => Err(e),
        Ok((p1, k)) => match blanks(s, p1) {
            Err(e) => Err(e),
            Ok(p2) => match tag(s, p2, single(open_brace())) {
                Err(e) => Err(e),
                Ok(p3) => match blanks(s, p3) {
                    Err(e) => Err(e),
                    Ok(p4) => match processor_list(s, p4) {
                        Err(e) => Err(e),
                        Ok((p5, ds)) => match blanks(s, p5) {
                            Err(e) => Err(e),
                            Ok(p6) => match tag(s, p6, single(close_brace())) {
                                Err(e) => Err(e),
                                Ok(p7) => match blanks(s, p7) {
                                    Err(e) => Err(e),
                                    Ok(p8) => Ok((p8, (k, ds))),
                                },
                            },
                        },
                    },
                },
            },
        },
    }
}

/// As many sections as there are, in order.
pub open spec fn section_list(s: Seq<u8>, pos: int) -> Result<
    (int, Seq<(Section, Seq<SpecDecl>)>),
    Failure,
>
    decreases s.len() - pos,
{
    if pos >= s.len() {
        Ok((pos, Seq::empty()))
    } else {
        match section(s, pos) {
            Err(Failure::Error) => Ok((pos, Seq::empty())),
            Err(Failure::Incomplete) => Err(Failure::Incomplete),
            Ok((p, d)) => if pos < p <= s.len() {
                match section_list(s, p) {
                    Ok((q, rest)) => Ok((q, seq![d] + rest)),
                    Err(e) => Err(e),
                }
            } else {
                Err(Failure::Error)
            },
        }
    }
}

/// The processors of the sections of kind `k`, section after section.
pub open spec fn gather(secs: Seq<(Section, Seq<SpecDecl>)>, k: Section) -> Seq<SpecDecl>
    decreases secs.len(),
{
    if secs.len() == 0 {
        Seq::empty()
    } else {
        gather(secs.drop_last(), k) + if secs.last().0 == k {
            secs.last().1
        } else {
            Seq::empty()
        }
    }
}

/// The whole configuration: one or more sections, the first at the very
/// start of the file. Every section is read: the inputs are those of all
/// `input` sections and the outputs those of all `output` sections, in the
/// order of the file, as the inputs and the outputs stand in sections of
/// their own. What follows the last section is left unread; the result gives
/// the position where reading stopped.
pub open spec fn configuration(s: Seq<u8>) -> Result<(int, SpecConfig), Failure> {
    match section(s, 0) {
        Err(e) => Err(e),
        Ok((p1, first)) => match section_list(s, p1) {
            Err(e) => Err(e),
            Ok((p2, rest)) => Ok(
                (
                    p2,
                    (
                        gather(seq![first] + rest, Section::Input),
                        gather(seq![first] + rest, Section::Output),
                    ),
                ),
            ),
        },
    }
}

/// A run ends within the input, every byte before its end is of its class,
/// and the byte at its end, if any, is not.
pub proof fn lemma_scan(s: Seq<u8>, pos: int, c: ByteClass)
    requires
        0 <= pos <= s.len(),
    ensures
        pos <= scan(s, pos, c) <= s.len(),
        forall|i: int| pos <= i < scan(s, pos, c) ==> in_class(c, #[trigger] s[i]),
        scan(s, pos, c) < s.len() ==> !in_class(c, s[scan(s, pos, c)]),
    decreases s.len() - pos,
{
    if pos < s.len() && in_class(c, s[pos]) {
        lemma_scan(s, pos + 1, c);
    }
}

/// An ASCII letter or digit.
pub open spec fn alnum_char(c: char) -> bool {
    ('A' <= c && c <= 'Z') || ('a' <= c && c <= 'z') || ('0' <= c && c <= '9')
}

/// A parameter name: one or more ASCII letters and digits.
pub open spec fn is_name(k: Seq<char>) -> bool {
    k.len() >= 1 && forall|i: int| 0 <= i < k.len() ==> alnum_char(#[trigger] k[i])
}

pub open spec fn pairs_named(kvs: Seq<(Seq<char>, Seq<char>)>) -> bool {
    forall|i: int| 0 <= i < kvs.len() ==> is_name(#[trigger] kvs[i].0)
}

pub open spec fn map_named(m: Map<Seq<char>, Seq<char>>) -> bool {
    forall|k: Seq<char>| m.dom().contains(k) ==> is_name(k)
}

/// Every processor of the list has a name, and names its parameters with
/// names.
pub open spec fn decls_named(ds: Seq<SpecDecl>) -> bool {
    forall|i: int|
        0 <= i < ds.len() ==> is_name((#[trigger] ds[i]).0) && match ds[i].1 {
            Some(m) => map_named(m),
            None => true,
        }
}

proof fn lemma_key_value_named(s: Seq<u8>, pos: int)
    requires
        0 <= pos <= s.len(),
    ensures
        key_value(s, pos) matches Ok((_, kv)) ==> is_name(kv.0),
{
    lemma_run_named(s, pos);
}

proof fn lemma_run_named(s: Seq<u8>, pos: int)
    requires
        0 <= pos <= s.len(),
    ensures
        run(s, pos, ByteClass::Alnum) matches Ok(p) ==> is_name(ascii_field(s, pos, p)),
{
    lemma_scan(s, pos, ByteClass::Alnum);
    let p1 = scan(s, pos, ByteClass::Alnum);
    let k = ascii_field(s, pos, p1);
    assert forall|i: int| 0 <= i < k.len() implies alnum_char(#[trigger] k[i]) by {
        assert(in_class(ByteClass::Alnum, s[pos + i]));
    }
}
proof fn lemma_kv_list_named(s: Seq<u8>, pos: int)
    requires
        0 <= pos <= s.len(),
    ensures
        kv_list(s, pos) matches Ok((_, kvs)) ==> pairs_named(kvs),
    decreases s.len() - pos,
{
    if pos < s.len() {
        lemma_key_value_named(s, pos);
        if let Ok((p, kv)) = key_value(s, pos) {
            if pos < p <= s.len() {
                lemma_kv_list_named(s, p);
                if let Ok((q, rest)) = kv_list(s, p) {
                    let all = seq![kv] + rest;
                    assert forall|i: int| 0 <= i < all.len() implies is_name(#[trigger] all[i].0) by {
                        if i > 0 {
                            assert(all[i] == rest[i - 1]);
                        }
                    }
                }
            }
        }
    }
}

proof fn lemma_keys_and_values_named(s: Seq<u8>, pos: int)
    requires
        0 <= pos <= s.len(),
    ensures
        keys_and_values(s, pos) matches Ok((_, m)) ==> map_named(m),
{
    if let Ok((p, kvs)) = kv_block(s, pos) {
        let p1 = pos + 1;
        if let Ok(p2) = blanks(s, p1) {
            lemma_blanks_bounds(s, p1);
            lemma_kv_list_named(s, p2);
        }
        assert forall|k: Seq<char>| pairs_to_map(kvs).dom().contains(k) implies is_name(k) by {
            lemma_pairs_to_map_dom(kvs, k);
            let i = choose|i: int| 0 <= i < kvs.len() && #[trigger] kvs[i].0 == k;
            assert(is_name(kvs[i].0));
        }
    }
}

/// Where blank space matches, it ends within the input and not before it
/// starts.
pub proof fn lemma_blanks_bounds(s: Seq<u8>, pos: int)
    requires
        0 <= pos <= s.len(),
    ensures
        blanks(s, pos) matches Ok(p) ==> pos <= p <= s.len(),
    decreases s.len() - pos,
{
    if pos < s.len() {
        if let Ok(p) = blank_item(s, pos) {
            if pos < p <= s.len() {
                lemma_blanks_bounds(s, p);
            }
        }
    }
}

/// A token that matches ends within the input.
pub proof fn lemma_tag_bounds(s: Seq<u8>, pos: int, t: Seq<u8>)
    requires
        0 <= pos <= s.len(),
    ensures
        tag(s, pos, t) matches Ok(p) ==> p == pos + t.len() && p <= s.len(),
{
}

proof fn lemma_processor_and_params_named(s: Seq<u8>, pos: int)
    requires
        0 <= pos <= s.len(),
    ensures
        processor_and_params(s, pos) matches Ok((_, d)) ==> is_name(d.0) && match d.1 {
            Some(m) => map_named(m),
            None => true,
        },
{
    lemma_blanks_bounds(s, pos);
    if let Ok(p1) = blanks(s, pos) {
        lemma_run_named(s, p1);
        if let Ok((p2, n)) = processor_name(s, p1) {
            lemma_scan(s, p1, ByteClass::Alnum);
            lemma_blanks_bounds(s, p2);
            if let Ok(p3) = blanks(s, p2) {
                lemma_keys_and_values_named(s, p3);
            }
        }
    }
}

proof fn lemma_processor_list_named(s: Seq<u8>, pos: int)
    requires
        0 <= pos <= s.len(),
    ensures
        processor_list(s, pos) matches Ok((_, ds)) ==> decls_named(ds),
    decreases s.len() - pos,
{
    if pos < s.len() {
        lemma_processor_and_params_named(s, pos);
        if let Ok((p, d)) = processor_and_params(s, pos) {
            if pos < p <= s.len() {
                lemma_processor_list_named(s, p);
                if let Ok((q, rest)) = processor_list(s, p) {
                    let all = seq![d] + rest;
                    assert forall|i: int| 0 <= i < all.len() implies is_name((#[trigger] all[i]).0)
                        && match all[i].1 {
                        Some(m) => map_named(m),
                        None => true,
                    } by {
                        if i > 0 {
                            assert(all[i] == rest[i - 1]);
                        }
                    }
                }
            }
        }
    }
}

proof fn lemma_section_named(s: Seq<u8>, pos: int)
    requires
        0 <= pos <= s.len(),
    ensures
        section(s, pos) matches Ok((_, sec)) ==> decls_named(sec.1),
{
    lemma_tag_bounds(s, pos, kw_input());
    lemma_tag_bounds(s, pos, kw_output());
    if let Ok((p1, k)) = section_kind(s, pos) {
        lemma_blanks_bounds(s, p1);
        if let Ok(p2) = blanks(s, p1) {
            if let Ok(p3) = tag(s, p2, single(open_brace())) {
                lemma_blanks_bounds(s, p3);
                if let Ok(p4) = blanks(s, p3) {
                    lemma_processor_list_named(s, p4);
                }
            }
        }
    }
}

pub open spec fn sections_named(secs: Seq<(Section, Seq<SpecDecl>)>) -> bool {
    forall|i: int| 0 <= i < secs.len() ==> decls_named((#[trigger] secs[i]).1)
}

proof fn lemma_section_list_named(s: Seq<u8>, pos: int)
    requires
        0 <= pos <= s.len(),
    ensures
        section_list(s, pos) matches Ok((_, secs)) ==> sections_named(secs),
    decreases s.len() - pos,
{
    if pos < s.len() {
        lemma_section_named(s, pos);
        if let Ok((p, d)) = section(s, pos) {
            if pos < p <= s.len() {
                lemma_section_list_named(s, p);
                if let Ok((q, rest)) = section_list(s, p) {
                    let all = seq![d] + rest;
                    assert forall|i: int| 0 <= i < all.len() implies decls_named(
                        (#[trigger] all[i]).1,
                    ) by {
                        if i > 0 {
                            assert(all[i] == rest[i - 1]);
                        }
                    }
                }
            }
        }
    }
}

proof fn lemma_gather_named(secs: Seq<(Section, Seq<SpecDecl>)>, k: Section)
    requires
        sections_named(secs),
    ensures
        decls_named(gather(secs, k)),
    decreases secs.len(),
{
    if secs.len() > 0 {
        let init = secs.drop_last();
        assert forall|i: int| 0 <= i < init.len() implies decls_named((#[trigger] init[i]).1) by {
            assert(init[i] == secs[i]);
        }
        lemma_gather_named(init, k);
        let a = gather(init, k);
        let b = if secs.last().0 == k {
            secs.last().1
        } else {
            Seq::empty()
        };
        assert(decls_named(secs[secs.len() - 1].1));
        let all = a + b;
        assert forall|i: int| 0 <= i < all.len() implies is_name((#[trigger] all[i]).0) && match all[i].1 {
            Some(m) => map_named(m),
            None => true,
        } by {
            if i < a.len() {
                assert(all[i] == a[i]);
            } else {
                assert(all[i] == b[i - a.len()]);
            }
        }
    }
}

/// Every processor of a configuration that parses, input or output, has a
/// name of one or more ASCII letters and digits, and so has every parameter
/// it is given.
pub proof fn lemma_config_names_are_alphanumeric(s: Seq<u8>)
    ensures
        configuration(s) matches Ok((_, c)) ==> decls_named(c.0) && decls_named(c.1),
{
    {
        let p0 = 0int;
        lemma_section_named(s, p0);
        if let Ok((p1, first)) = section(s, p0) {
            lemma_section_bounds(s, p0);
            lemma_section_list_named(s, p1);
            if let Ok((p2, rest)) = section_list(s, p1) {
                let all = seq![first] + rest;
                assert forall|i: int| 0 <= i < all.len() implies decls_named((#[trigger] all[i]).1) by {
                    if i > 0 {
                        assert(all[i] == rest[i - 1]);
                    }
                }
                lemma_gather_named(all, Section::Input);
                lemma_gather_named(all, Section::Output);
            }
        }
    }
}

/// Where a section matches, it ends within the input.
pub proof fn lemma_section_bounds(s: Seq<u8>, pos: int)
    requires
        0 <= pos <= s.len(),
    ensures
        section(s, pos) matches Ok((p, _)) ==> pos <= p <= s.len(),
{
    lemma_tag_bounds(s, pos, kw_input());
    lemma_tag_bounds(s, pos, kw_output());
    if let Ok((p1, k)) = section_kind(s, pos) {
        lemma_blanks_bounds(s, p1);
        if let Ok(p2) = blanks(s, p1) {
            lemma_tag_bounds(s, p2, single(open_brace()));
            if let Ok(p3) = tag(s, p2, single(open_brace())) {
                lemma_blanks_bounds(s, p3);
                if let Ok(p4) = blanks(s, p3) {
                    lemma_processor_list_bounds(s, p4);
                    if let Ok((p5, ds)) = processor_list(s, p4) {
                        lemma_blanks_bounds(s, p5);
                        if let Ok(p6) = blanks(s, p5) {
                            lemma_tag_bounds(s, p6, single(close_brace()));
                            if let Ok(p7) = tag(s, p6, single(close_brace())) {
                                lemma_blanks_bounds(s, p7);
                            }
                        }
                    }
                }
            }
        }
    }
}

proof fn lemma_processor_list_bounds(s: Seq<u8>, pos: int)
    requires
        0 <= pos <= s.len(),
    ensures
        processor_list(s, pos) matches Ok((p, _)) ==> pos <= p <= s.len(),
    decreases s.len() - pos,
{
    if pos < s.len() {
        if let Ok((p, d)) = processor_and_params(s, pos) {
            if pos < p <= s.len() {
                lemma_processor_list_bounds(s, p);
            }
        }
    }
}

} // verus!
