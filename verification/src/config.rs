//! Parsing the configuration file: each function computes the grammar rule of
//! the same name in `grammar`.

use vstd::prelude::*;

use crate::grammar::{
    ascii_field, lemma_scan,
    blank_item, blanks, comment, crlf, eof, eol, in_class,
    key_value, keys_and_values, kv_block, kv_list, lf, line_sep, optional,
    para_sep, quoted_string, run, scan, single, tag, unquoted_value, utf8_field, value,
    finish_decl, gather, kw_input, kw_output, processor_and_params, processor_list,
    processor_name, section, section_kind, section_list, configuration, ByteClass, Failure,
    Section, SpecConfig, SpecDecl,
};
use crate::params::{pair_views, pairs_to_map, Params};
use crate::text::utf8_to_string;

verus! {

/// A position result as the grammar states it.
pub open spec fn pos_view(r: Result<usize, Failure>) -> Result<int, Failure> {
    match r {
        Ok(p) => Ok(p as int),
        Err(e) => Err(e),
    }
}

fn is_error<T>(r: &Result<T, Failure>) -> (b: bool)
    ensures
        b == (*r matches Err(Failure::Error)),
{
    match r {
        Err(Failure::Error) => true,
        _ => false,
    }
}

fn byte_in_class(c: ByteClass, b: u8) -> (r: bool)
    ensures
        r == in_class(c, b),
{
    match c {
        ByteClass::Alnum => (65 <= b && b <= 90) || (97 <= b && b <= 122) || (48 <= b && b <= 57),
        ByteClass::Space => b == 32 || b == 9,
        ByteClass::MultiSpace => b == 32 || b == 9 || b == 13 || b == 10,
        ByteClass::NotLineEnd => b != 13 && b != 10,
        ByteClass::NotQuote => b != 34,
        ByteClass::NotValueEnd => b != 10 && b != 13 && b != 35,
    }
}

fn scan_class(s: &[u8], pos: usize, c: ByteClass) -> (e: usize)
    requires
        pos <= s@.len(),
    ensures
        e == scan(s@, pos as int, c),
        pos <= e <= s@.len(),
{
    proof {
        lemma_scan(s@, pos as int, c);
    }
    let mut i = pos;
    while i < s.len() && byte_in_class(c, s[i])
        invariant
            pos <= i <= s@.len(),
            scan(s@, i as int, c) == scan(s@, pos as int, c),
        decreases s@.len() - i,
    {
        i = i + 1;
    }
    i
}

fn run_of(s: &[u8], pos: usize, c: ByteClass) -> (r: Result<usize, Failure>)
    requires
        pos <= s@.len(),
    ensures
        pos_view(r) == run(s@, pos as int, c),
        r matches Ok(p) ==> pos < p <= s@.len(),
{
    let e = scan_class(s, pos, c);
    if e == pos {
        Err(Failure::Error)
    } else {
        Ok(e)
    }
}

fn tag_at(s: &[u8], pos: usize, t: &[u8]) -> (r: Result<usize, Failure>)
    requires
        pos <= s@.len(),
    ensures
        pos_view(r) == tag(s@, pos as int, t@),
        r matches Ok(p) ==> p == pos + t@.len() && p <= s@.len(),
{
    let n = s.len();
    let avail = n - pos;
    let m = if avail < t.len() { avail } else { t.len() };
    let mut j: usize = 0;
    while j < m
        invariant
            n == s@.len(),
            j <= m,
            m <= t@.len(),
            pos + m <= s@.len(),
            m == (if s@.len() - pos < t@.len() { s@.len() - pos } else { t@.len() as int }),
            forall|k: int| 0 <= k < j ==> s@[pos + k] == t@[k],
        decreases m - j,
    {
        if s[pos + j] != t[j] {
            assert(s@.subrange(pos as int, pos + m)[j as int] != t@.subrange(0, m as int)[j as int]);
            return Err(Failure::Error);
        }
        j = j + 1;
    }
    assert(s@.subrange(pos as int, pos + m) =~= t@.subrange(0, m as int));
    if m < t.len() {
        Err(Failure::Incomplete)
    } else {
        Ok(pos + t.len())
    }
}

fn tag_byte(s: &[u8], pos: usize, b: u8) -> (r: Result<usize, Failure>)
    requires
        pos <= s@.len(),
    ensures
        pos_view(r) == tag(s@, pos as int, single(b)),
        r matches Ok(p) ==> p == pos + 1 && p <= s@.len(),
{
    let t = [b];
    assert(t@ =~= single(b));
    tag_at(s, pos, &t)
}

fn eof_at(s: &[u8], pos: usize) -> (r: Result<usize, Failure>)
    requires
        pos <= s@.len(),
    ensures
        pos_view(r) == eof(s@, pos as int),
{
    if pos == s.len() {
        Ok(pos)
    } else {
        Err(Failure::Error)
    }
}

fn eol_at(s: &[u8], pos: usize) -> (r: Result<usize, Failure>)
    requires
        pos <= s@.len(),
    ensures
        pos_view(r) == eol(s@, pos as int),
        r matches Ok(p) ==> pos < p <= s@.len(),
{
    let crlf_bytes = [13u8, 10u8];
    assert(crlf_bytes@ =~= crlf());
    let r1 = tag_at(s, pos, &crlf_bytes);
    if !is_error(&r1) {
        return r1;
    }
    let lf_bytes = [10u8];
    assert(lf_bytes@ =~= lf());
    let r2 = tag_at(s, pos, &lf_bytes);
    if !is_error(&r2) {
        return r2;
    }
    let ls_bytes = [0xe2u8, 0x80u8, 0xa8u8];
    assert(ls_bytes@ =~= line_sep());
    let r3 = tag_at(s, pos, &ls_bytes);
    if !is_error(&r3) {
        return r3;
    }
    let ps_bytes = [0xe2u8, 0x80u8, 0xa9u8];
    assert(ps_bytes@ =~= para_sep());
    tag_at(s, pos, &ps_bytes)
}

fn comment_at(s: &[u8], pos: usize) -> (r: Result<usize, Failure>)
    requires
        pos <= s@.len(),
    ensures
        pos_view(r) == comment(s@, pos as int),
        r matches Ok(p) ==> pos < p <= s@.len(),
{
    let p = tag_byte(s, pos, 35u8)?;
    let q = scan_class(s, p, ByteClass::NotLineEnd);
    let r1 = eol_at(s, q);
    if !is_error(&r1) {
        return r1;
    }
    eof_at(s, q)
}

fn blank_item_at(s: &[u8], pos: usize) -> (r: Result<usize, Failure>)
    requires
        pos <= s@.len(),
    ensures
        pos_view(r) == blank_item(s@, pos as int),
{
    let r1 = run_of(s, pos, ByteClass::MultiSpace);
    if !is_error(&r1) {
        return r1;
    }
    let r2 = comment_at(s, pos);
    if !is_error(&r2) {
        return r2;
    }
    let r3 = eol_at(s, pos);
    if !is_error(&r3) {
        return r3;
    }
    eof_at(s, pos)
}

fn blanks_at(s: &[u8], pos: usize) -> (r: Result<usize, Failure>)
    requires
        pos <= s@.len(),
    ensures
        pos_view(r) == blanks(s@, pos as int),
        r matches Ok(p) ==> pos <= p <= s@.len(),
{
    let mut cur = pos;
    loop
        invariant
            pos <= cur <= s@.len(),
            blanks(s@, pos as int) == blanks(s@, cur as int),
        decreases s@.len() - cur,
    {
        if cur >= s.len() {
            return Ok(cur);
        }
        match blank_item_at(s, cur) {
            Ok(p) => {
                if p <= cur || p > s.len() {
                    return Err(Failure::Error);
                }
                cur = p;
            },
            Err(Failure::Error) => {
                return Ok(cur);
            },
            Err(Failure::Incomplete) => {
                return Err(Failure::Incomplete);
            },
        }
    }
}


fn sub_bytes(s: &[u8], from: usize, to: usize) -> (v: Vec<u8>)
    requires
        from <= to <= s@.len(),
    ensures
        v@ == s@.subrange(from as int, to as int),
{
    let mut v: Vec<u8> = Vec::new();
    let mut i = from;
    while i < to
        invariant
            from <= i <= to,
            to <= s@.len(),
            v@ == s@.subrange(from as int, i as int),
        decreases to - i,
    {
        v.push(s[i]);
        i = i + 1;
        assert(v@ =~= s@.subrange(from as int, i as int));
    }
    v
}

fn utf8_field_at(s: &[u8], from: usize, to: usize) -> (r: Option<String>)
    requires
        from <= to <= s@.len(),
    ensures
        r is Some <==> utf8_field(s@, from as int, to as int) is Some,
        r matches Some(v) ==> utf8_field(s@, from as int, to as int) == Some(v@),
{
    let bytes = sub_bytes(s, from, to);
    utf8_to_string(bytes.as_slice())
}

fn ascii_field_at(s: &[u8], from: usize, to: usize) -> (r: String)
    requires
        from <= to <= s@.len(),
    ensures
        r@ == ascii_field(s@, from as int, to as int),
{
    let mut r = String::new();
    let mut i = from;
    while i < to
        invariant
            from <= i <= to,
            to <= s@.len(),
            r@ == ascii_field(s@, from as int, i as int),
        decreases to - i,
    {
        crate::text::push_char(&mut r, s[i] as char);
        i = i + 1;
        assert(r@ =~= ascii_field(s@, from as int, i as int));
    }
    r
}

/// A result that carries a string, as the grammar states it.
pub open spec fn text_view(r: Result<(usize, String), Failure>) -> Result<(int, Seq<char>), Failure> {
    match r {
        Ok((p, v)) => Ok((p as int, v@)),
        Err(e) => Err(e),
    }
}

fn quoted_string_at(s: &[u8], pos: usize) -> (r: Result<(usize, String), Failure>)
    requires
        pos <= s@.len(),
    ensures
        text_view(r) == quoted_string(s@, pos as int),
        r matches Ok((p, _)) ==> pos < p <= s@.len(),
{
    let p1 = tag_byte(s, pos, 34u8)?;
    if p1 >= s.len() {
        return Err(Failure::Incomplete);
    }
    let e = scan_class(s, p1, ByteClass::NotQuote);
    if e >= s.len() {
        return Err(Failure::Error);
    }
    match utf8_field_at(s, p1, e) {
        None => Err(Failure::Error),
        Some(v) => {
            let p3 = tag_byte(s, e, 34u8)?;
            Ok((p3, v))
        },
    }
}

fn unquoted_value_at(s: &[u8], pos: usize) -> (r: Result<(usize, String), Failure>)
    requires
        pos <= s@.len(),
    ensures
        text_view(r) == unquoted_value(s@, pos as int),
        r matches Ok((p, _)) ==> pos <= p <= s@.len(),
{
    if pos >= s.len() {
        return Err(Failure::Incomplete);
    }
    let e = scan_class(s, pos, ByteClass::NotValueEnd);
    if e >= s.len() {
        return Err(Failure::Error);
    }
    match utf8_field_at(s, pos, e) {
        None => Err(Failure::Error),
        Some(v) => Ok((e, v)),
    }
}

fn value_at(s: &[u8], pos: usize) -> (r: Result<(usize, String), Failure>)
    requires
        pos <= s@.len(),
    ensures
        text_view(r) == value(s@, pos as int),
        r matches Ok((p, _)) ==> pos <= p <= s@.len(),
{
    let r1 = quoted_string_at(s, pos);
    if !is_error(&r1) {
        return r1;
    }
    unquoted_value_at(s, pos)
}

/// A result that carries a pair of strings, as the grammar states it.
pub open spec fn pair_view(r: Result<(usize, (String, String)), Failure>) -> Result<
    (int, (Seq<char>, Seq<char>)),
    Failure,
> {
    match r {
        Ok((p, (k, v))) => Ok((p as int, (k@, v@))),
        Err(e) => Err(e),
    }
}

fn optional_space(s: &[u8], pos: usize) -> (r: Result<usize, Failure>)
    requires
        pos <= s@.len(),
    ensures
        pos_view(r) == optional(run(s@, pos as int, ByteClass::Space), pos as int),
        r matches Ok(p) ==> pos <= p <= s@.len(),
{
    match run_of(s, pos, ByteClass::Space) {
        Ok(p) => Ok(p),
        Err(Failure::Error) => Ok(pos),
        Err(Failure::Incomplete) => Err(Failure::Incomplete),
    }
}

fn key_value_at(s: &[u8], pos: usize) -> (r: Result<(usize, (String, String)), Failure>)
    requires
        pos <= s@.len(),
    ensures
        pair_view(r) == key_value(s@, pos as int),
        r matches Ok((p, _)) ==> pos < p <= s@.len(),
{
    let p1 = run_of(s, pos, ByteClass::Alnum)?;
    let k = ascii_field_at(s, pos, p1);
    let p2 = optional_space(s, p1)?;
    let p3 = tag_byte(s, p2, 61u8)?;
    let p4 = optional_space(s, p3)?;
    let (p5, v) = value_at(s, p4)?;
    let p6 = blanks_at(s, p5)?;
    Ok((p6, (k, v)))
}

/// A list result prefixed with `acc`.
pub open spec fn prefixed<T>(acc: Seq<T>, r: Result<(int, Seq<T>), Failure>) -> Result<
    (int, Seq<T>),
    Failure,
> {
    match r {
        Ok((q, rest)) => Ok((q, acc + rest)),
        Err(e) => Err(e),
    }
}

proof fn lemma_prefixed_step<T>(acc: Seq<T>, x: T, r: Result<(int, Seq<T>), Failure>)
    ensures
        prefixed(acc, prefixed(seq![x], r)) == prefixed(acc.push(x), r),
{
    match r {
        Ok((q, rest)) => {
            assert(acc + (seq![x] + rest) =~= acc.push(x) + rest);
        },
        Err(_) => {},
    }
}

fn kv_list_at(s: &[u8], pos: usize) -> (r: Result<(usize, Vec<(String, String)>), Failure>)
    requires
        pos <= s@.len(),
    ensures
        match r {
            Ok((p, v)) => kv_list(s@, pos as int) == Ok::<(int, Seq<(Seq<char>, Seq<char>)>), Failure>((p as int, pair_views(v@)))
                && pos <= p <= s@.len(),
            Err(e) => kv_list(s@, pos as int) == Err::<(int, Seq<(Seq<char>, Seq<char>)>), Failure>(e),
        },
{
    let mut acc: Vec<(String, String)> = Vec::new();
    let mut cur = pos;
    assert(pair_views(acc@) =~= Seq::empty());
    loop
        invariant
            pos <= cur <= s@.len(),
            kv_list(s@, pos as int) == prefixed(pair_views(acc@), kv_list(s@, cur as int)),
        decreases s@.len() - cur,
    {
        if cur >= s.len() {
            assert(pair_views(acc@) + Seq::empty() =~= pair_views(acc@));
            return Ok((cur, acc));
        }
        match key_value_at(s, cur) {
            Ok((p, kv)) => {
                if p <= cur || p > s.len() {
                    return Err(Failure::Error);
                }
                let ghost kv_view = (kv.0@, kv.1@);
                let ghost old_acc = pair_views(acc@);
                proof {
                    lemma_prefixed_step(old_acc, kv_view, kv_list(s@, p as int));
                }
                acc.push(kv);
                assert(pair_views(acc@) =~= old_acc.push(kv_view));
                cur = p;
            },
            Err(Failure::Error) => {
                assert(pair_views(acc@) + Seq::empty() =~= pair_views(acc@));
                return Ok((cur, acc));
            },
            Err(Failure::Incomplete) => {
                return Err(Failure::Incomplete);
            },
        }
    }
}

fn kv_block_at(s: &[u8], pos: usize) -> (r: Result<(usize, Vec<(String, String)>), Failure>)
    requires
        pos <= s@.len(),
    ensures
        match r {
            Ok((p, v)) => kv_block(s@, pos as int) == Ok::<(int, Seq<(Seq<char>, Seq<char>)>), Failure>((p as int, pair_views(v@)))
                && pos < p <= s@.len(),
            Err(e) => kv_block(s@, pos as int) == Err::<(int, Seq<(Seq<char>, Seq<char>)>), Failure>(e),
        },
{
    let p1 = tag_byte(s, pos, 123u8)?;
    let p2 = blanks_at(s, p1)?;
    let (p3, kvs) = kv_list_at(s, p2)?;
    let p4 = blanks_at(s, p3)?;
    let p5 = tag_byte(s, p4, 125u8)?;
    Ok((p5, kvs))
}

fn params_from_pairs(pairs: &Vec<(String, String)>) -> (res: Params)
    ensures
        res@ == pairs_to_map(pair_views(pairs@)),
{
    let mut res = Params::new();
    let ghost all = pair_views(pairs@);
    let mut i: usize = 0;
    assert(all.take(0) =~= Seq::empty());
    while i < pairs.len()
        invariant
            i <= pairs@.len(),
            all == pair_views(pairs@),
            res@ == pairs_to_map(all.take(i as int)),
        decreases pairs@.len() - i,
    {
        assert(all.take(i + 1).drop_last() =~= all.take(i as int));
        res.insert(pairs[i].0.clone(), pairs[i].1.clone());
        i = i + 1;
    }
    assert(all.take(i as int) =~= all);
    res
}


fn keys_and_values_at(s: &[u8], pos: usize) -> (r: Result<(usize, Params), Failure>)
    requires
        pos <= s@.len(),
    ensures
        match r {
            Ok((p, m)) => keys_and_values(s@, pos as int) == Ok::<(int, Map<Seq<char>, Seq<char>>), Failure>((p as int, m@))
                && pos < p <= s@.len(),
            Err(e) => keys_and_values(s@, pos as int) == Err::<(int, Map<Seq<char>, Seq<char>>), Failure>(e),
        },
{
    let (p, kvs) = kv_block_at(s, pos)?;
    Ok((p, params_from_pairs(&kvs)))
}

fn processor_name_at(s: &[u8], pos: usize) -> (r: Result<(usize, String), Failure>)
    requires
        pos <= s@.len(),
    ensures
        text_view(r) == processor_name(s@, pos as int),
        r matches Ok((p, _)) ==> pos < p <= s@.len(),
{
    let p = run_of(s, pos, ByteClass::Alnum)?;
    Ok((p, ascii_field_at(s, pos, p)))
}

/// What the configuration says of one processor: its name and, where a
/// block follows the name, its parameters.
pub struct ProcessorDecl {
    pub name: String,
    pub params: Option<Params>,
}

impl ProcessorDecl {
    pub open spec fn view(&self) -> SpecDecl {
        (
            self.name@,
            match self.params {
                Some(p) => Some(p@),
                None => None,
            },
        )
    }
}

/// The views of a list of processors.
pub open spec fn decl_views(v: Seq<ProcessorDecl>) -> Seq<SpecDecl> {
    v.map_values(|d: ProcessorDecl| d.view())
}

/// The processors that a configuration lists.
pub struct Configuration {
    /// The processors of the `input` sections, in the order of the file.
    pub inputs: Vec<ProcessorDecl>,
    /// The processors of the `output` sections, in the order of the file.
    pub outputs: Vec<ProcessorDecl>,
}

impl Configuration {
    pub open spec fn view(&self) -> SpecConfig {
        (decl_views(self.inputs@), decl_views(self.outputs@))
    }
}

fn finish_decl_at(s: &[u8], pos: usize, decl: ProcessorDecl) -> (r: Result<(usize, ProcessorDecl), Failure>)
    requires
        pos <= s@.len(),
    ensures
        match r {
            Ok((p, d)) => finish_decl(s@, pos as int, decl.view()) == Ok::<(int, SpecDecl), Failure>((p as int, d.view()))
                && pos <= p <= s@.len(),
            Err(e) => finish_decl(s@, pos as int, decl.view()) == Err::<(int, SpecDecl), Failure>(e),
        },
{
    let p = blanks_at(s, pos)?;
    Ok((p, decl))
}

fn processor_and_params_at(s: &[u8], pos: usize) -> (r: Result<(usize, ProcessorDecl), Failure>)
    requires
        pos <= s@.len(),
    ensures
        match r {
            Ok((p, d)) => processor_and_params(s@, pos as int) == Ok::<(int, SpecDecl), Failure>((p as int, d.view()))
                && pos < p <= s@.len(),
            Err(e) => processor_and_params(s@, pos as int) == Err::<(int, SpecDecl), Failure>(e),
        },
{
    let p1 = blanks_at(s, pos)?;
    let (p2, name) = processor_name_at(s, p1)?;
    let p3 = blanks_at(s, p2)?;
    match keys_and_values_at(s, p3) {
        Err(Failure::Incomplete) => Err(Failure::Incomplete),
        Err(Failure::Error) => finish_decl_at(s, p3, ProcessorDecl { name, params: None }),
        Ok((p4, m)) => finish_decl_at(s, p4, ProcessorDecl { name, params: Some(m) }),
    }
}

fn processor_list_at(s: &[u8], pos: usize) -> (r: Result<(usize, Vec<ProcessorDecl>), Failure>)
    requires
        pos <= s@.len(),
    ensures
        match r {
            Ok((p, v)) => processor_list(s@, pos as int) == Ok::<(int, Seq<SpecDecl>), Failure>((p as int, decl_views(v@)))
                && pos <= p <= s@.len(),
            Err(e) => processor_list(s@, pos as int) == Err::<(int, Seq<SpecDecl>), Failure>(e),
        },
{
    let mut acc: Vec<ProcessorDecl> = Vec::new();
    let mut cur = pos;
    assert(decl_views(acc@) =~= Seq::empty());
    loop
        invariant
            pos <= cur <= s@.len(),
            processor_list(s@, pos as int) == prefixed(decl_views(acc@), processor_list(s@, cur as int)),
        decreases s@.len() - cur,
    {
        if cur >= s.len() {
            assert(decl_views(acc@) + Seq::empty() =~= decl_views(acc@));
            return Ok((cur, acc));
        }
        match processor_and_params_at(s, cur) {
            Ok((p, d)) => {
                if p <= cur || p > s.len() {
                    return Err(Failure::Error);
                }
                let ghost d_view = d.view();
                let ghost old_acc = decl_views(acc@);
                proof {
                    lemma_prefixed_step(old_acc, d_view, processor_list(s@, p as int));
                }
                acc.push(d);
                assert(decl_views(acc@) =~= old_acc.push(d_view));
                cur = p;
            },
            Err(Failure::Error) => {
                assert(decl_views(acc@) + Seq::empty() =~= decl_views(acc@));
                return Ok((cur, acc));
            },
            Err(Failure::Incomplete) => {
                return Err(Failure::Incomplete);
            },
        }
    }
}

fn section_kind_at(s: &[u8], pos: usize) -> (r: Result<(usize, Section), Failure>)
    requires
        pos <= s@.len(),
    ensures
        match r {
            Ok((p, k)) => section_kind(s@, pos as int) == Ok::<(int, Section), Failure>((p as int, k))
                && pos < p <= s@.len(),
            Err(e) => section_kind(s@, pos as int) == Err::<(int, Section), Failure>(e),
        },
{
    let input_bytes = [105u8, 110u8, 112u8, 117u8, 116u8];
    assert(input_bytes@ =~= kw_input());
    match tag_at(s, pos, &input_bytes) {
        Ok(p) => {
            return Ok((p, Section::Input));
        },
        Err(Failure::Incomplete) => {
            return Err(Failure::Incomplete);
        },
        Err(Failure::Error) => {},
    }
    let output_bytes = [111u8, 117u8, 116u8, 112u8, 117u8, 116u8];
    assert(output_bytes@ =~= kw_output());
    let p = tag_at(s, pos, &output_bytes)?;
    Ok((p, Section::Output))
}

/// A section's result, as the grammar states it.
pub open spec fn section_view(r: Result<(usize, (Section, Vec<ProcessorDecl>)), Failure>) -> Result<
    (int, (Section, Seq<SpecDecl>)),
    Failure,
> {
    match r {
        Ok((p, (k, ds))) => Ok((p as int, (k, decl_views(ds@)))),
        Err(e) => Err(e),
    }
}

fn section_at(s: &[u8], pos: usize) -> (r: Result<(usize, (Section, Vec<ProcessorDecl>)), Failure>)
    requires
        pos <= s@.len(),
    ensures
        section_view(r) == section(s@, pos as int),
        r matches Ok((p, _)) ==> pos < p <= s@.len(),
{
    let (p1, k) = section_kind_at(s, pos)?;
    let p2 = blanks_at(s, p1)?;
    let p3 = tag_byte(s, p2, 123u8)?;
    let p4 = blanks_at(s, p3)?;
    let (p5, ds) = processor_list_at(s, p4)?;
    let p6 = blanks_at(s, p5)?;
    let p7 = tag_byte(s, p6, 125u8)?;
    let p8 = blanks_at(s, p7)?;
    Ok((p8, (k, ds)))
}

proof fn lemma_gather_step(secs: Seq<(Section, Seq<SpecDecl>)>, x: (Section, Seq<SpecDecl>), k: Section)
    ensures
        gather(secs.push(x), k) == gather(secs, k) + if x.0 == k {
            x.1
        } else {
            Seq::empty()
        },
{
    assert(secs.push(x).drop_last() =~= secs);
}

/// Adds the processors of a section to the lists of its kind.
fn add_section(
    inputs: &mut Vec<ProcessorDecl>,
    outputs: &mut Vec<ProcessorDecl>,
    k: Section,
    ds: Vec<ProcessorDecl>,
)
    ensures
        decl_views(final(inputs)@) == decl_views(old(inputs)@) + if k == Section::Input {
            decl_views(ds@)
        } else {
            Seq::empty()
        },
        decl_views(final(outputs)@) == decl_views(old(outputs)@) + if k == Section::Output {
            decl_views(ds@)
        } else {
            Seq::empty()
        },
{
    let mut ds = ds;
    let ghost dv = decl_views(ds@);
    let ghost iv = decl_views(inputs@);
    let ghost ov = decl_views(outputs@);
    match k {
        Section::Input => {
            inputs.append(&mut ds);
            assert(decl_views(inputs@) =~= iv + dv);
            assert(decl_views(outputs@) =~= ov + Seq::empty());
        },
        Section::Output => {
            outputs.append(&mut ds);
            assert(decl_views(outputs@) =~= ov + dv);
            assert(decl_views(inputs@) =~= iv + Seq::empty());
        },
    }
}

/// The views of a list of sections.
pub open spec fn section_views(v: Seq<(Section, Vec<ProcessorDecl>)>) -> Seq<(Section, Seq<SpecDecl>)> {
    v.map_values(|x: (Section, Vec<ProcessorDecl>)| (x.0, decl_views(x.1@)))
}

fn section_list_at(s: &[u8], pos: usize) -> (r: Result<(usize, Vec<(Section, Vec<ProcessorDecl>)>), Failure>)
    requires
        pos <= s@.len(),
    ensures
        match r {
            Ok((p, v)) => section_list(s@, pos as int) == Ok::<
                (int, Seq<(Section, Seq<SpecDecl>)>),
                Failure,
            >((p as int, section_views(v@))) && pos <= p <= s@.len(),
            Err(e) => section_list(s@, pos as int) == Err::<(int, Seq<(Section, Seq<SpecDecl>)>), Failure>(e),
        },
{
    let mut acc: Vec<(Section, Vec<ProcessorDecl>)> = Vec::new();
    let mut cur = pos;
    assert(section_views(acc@) =~= Seq::empty());
    loop
        invariant
            pos <= cur <= s@.len(),
            section_list(s@, pos as int) == prefixed(section_views(acc@), section_list(s@, cur as int)),
        decreases s@.len() - cur,
    {
        if cur >= s.len() {
            assert(section_views(acc@) + Seq::empty() =~= section_views(acc@));
            return Ok((cur, acc));
        }
        match section_at(s, cur) {
            Ok((p, sec)) => {
                if p <= cur || p > s.len() {
                    return Err(Failure::Error);
                }
                let ghost sv = (sec.0, decl_views(sec.1@));
                let ghost old_acc = section_views(acc@);
                proof {
                    lemma_prefixed_step(old_acc, sv, section_list(s@, p as int));
                }
                acc.push(sec);
                assert(section_views(acc@) =~= old_acc.push(sv));
                cur = p;
            },
            Err(Failure::Error) => {
                assert(section_views(acc@) + Seq::empty() =~= section_views(acc@));
                return Ok((cur, acc));
            },
            Err(Failure::Incomplete) => {
                return Err(Failure::Incomplete);
            },
        }
    }
}

/// Gathers the processors of the sections by kind, in order.
fn gather_sections(secs: Vec<(Section, Vec<ProcessorDecl>)>) -> (res: Configuration)
    ensures
        res.view() == (
            gather(section_views(secs@), Section::Input),
            gather(section_views(secs@), Section::Output),
        ),
{
    let ghost all = section_views(secs@);
    let mut secs = secs;
    let mut inputs: Vec<ProcessorDecl> = Vec::new();
    let mut outputs: Vec<ProcessorDecl> = Vec::new();
    let ghost mut done: int = 0;
    assert(all.take(0) =~= Seq::empty());
    assert(decl_views(inputs@) =~= Seq::empty());
    assert(decl_views(outputs@) =~= Seq::empty());
    while secs.len() > 0
        invariant
            0 <= done <= all.len(),
            section_views(secs@) == all.skip(done),
            decl_views(inputs@) == gather(all.take(done), Section::Input),
            decl_views(outputs@) == gather(all.take(done), Section::Output),
        decreases secs@.len(),
    {
        let ghost before = section_views(secs@);
        let sec = secs.remove(0);
        let ghost sv = (sec.0, decl_views(sec.1@));
        assert(before[0] == sv);
        assert(section_views(secs@) =~= before.drop_first());
        assert(all.take(done + 1) =~= all.take(done).push(sv)) by {
            assert(all[done] == before[0]);
        }
        proof {
            lemma_gather_step(all.take(done), sv, Section::Input);
            lemma_gather_step(all.take(done), sv, Section::Output);
        }
        add_section(&mut inputs, &mut outputs, sec.0, sec.1);
        proof {
            done = done + 1;
        }
        assert(section_views(secs@) =~= all.skip(done));
    }
    assert(all.take(done) =~= all);
    Configuration { inputs, outputs }
}

/// Parses a configuration file: one or more `input` and `output` sections,
/// the first at the very start, each a list of processor names with optional
/// parameter blocks. On success it gives the inputs and the outputs in the
/// order of the file and the position where reading stopped; bytes after the
/// last section are left unread.
pub fn parse_config(source: &[u8]) -> (r: Result<(usize, Configuration), Failure>)
    ensures
        match r {
            Ok((p, c)) => configuration(source@) == Ok::<(int, SpecConfig), Failure>((p as int, c.view()))
                && p <= source@.len(),
            Err(e) => configuration(source@) == Err::<(int, SpecConfig), Failure>(e),
        },
{
    let (p1, first) = section_at(source, 0)?;
    let (p2, rest) = section_list_at(source, p1)?;
    let mut secs = rest;
    let ghost rest_view = section_views(secs@);
    let ghost first_view = (first.0, decl_views(first.1@));
    secs.insert(0, first);
    assert(section_views(secs@) =~= seq![first_view] + rest_view);
    Ok((p2, gather_sections(secs)))
}

} // verus!
