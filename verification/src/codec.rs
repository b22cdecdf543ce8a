//! The wire forms of the records crossing the isolation boundary: the
//! call (virtual files, entry path, options) going in, and the result
//! coming back.
//!
//! Every record is marshalled field by field, never via native memory layout:
//! `success` is one byte, the severity is one of four tags, every text is
//! length-prefixed, and every list is count-prefixed.  Counts and lengths
//! are eight little-endian bytes; each character is its code point in four
//! little-endian bytes.
//!
//! `enc_result` and `enc_call` are the one definition of each wire form.
//! The encoders return exactly their value, and the decoders are exact
//! and complete: each yields a value exactly when the whole input is,
//! byte for byte, the encoding of some value, and then yields a value
//! with that encoding.

use vstd::prelude::*;
use vstd::string::StrSliceExecFns;

use crate::model::CompileOptions;
use crate::model::CompileOptionsV;
use crate::model::CompileResult;
use crate::model::CompileResultV;
use crate::model::Diagnostic;
use crate::model::DiagnosticV;
use crate::model::EmittedFile;
use crate::model::EmittedFileV;
use crate::model::Severity;
use crate::model::SourceFile;
use crate::model::SourceFileV;
use crate::model::diag_views;
use crate::model::emitted_views;
use crate::model::file_views;
use crate::model::string_views;

verus! {

/// Eight little-endian bytes of a count or length.
pub open spec fn enc_u64(n: u64) -> Seq<u8> {
    seq![
        (n & 0xff) as u8,
        ((n >> 8) & 0xff) as u8,
        ((n >> 16) & 0xff) as u8,
        ((n >> 24) & 0xff) as u8,
        ((n >> 32) & 0xff) as u8,
        ((n >> 40) & 0xff) as u8,
        ((n >> 48) & 0xff) as u8,
        ((n >> 56) & 0xff) as u8,
    ]
}

/// Four little-endian bytes of one code point.
pub open spec fn enc_u32(n: u32) -> Seq<u8> {
    seq![(n & 0xff) as u8, ((n >> 8) & 0xff) as u8, ((n >> 16) & 0xff) as u8, ((n >> 24) & 0xff) as u8]
}

/// One character: its code point.
pub open spec fn enc_char(c: char) -> Seq<u8> {
    enc_u32(c as u32)
}

/// The characters of a text from position `p` on.
pub open spec fn enc_chars(s: Seq<char>, p: int) -> Seq<u8>
    decreases s.len() - p,
{
    if p < 0 || p >= s.len() {
        Seq::empty()
    } else {
        enc_char(s[p]) + enc_chars(s, p + 1)
    }
}

/// A length-prefixed text.
pub open spec fn enc_text(s: Seq<char>) -> Seq<u8> {
    enc_u64(s.len() as u64) + enc_chars(s, 0)
}

/// The one-byte tag of each severity of the closed, four-value set.
pub open spec fn severity_tag(s: Severity) -> u8 {
    match s {
        Severity::Error => 0,
        Severity::Warning => 1,
        Severity::Info => 2,
        Severity::Hint => 3,
    }
}

/// One diagnostic: its severity tag, then its message.
pub open spec fn enc_diag(d: DiagnosticV) -> Seq<u8> {
    seq![severity_tag(d.severity)] + enc_text(d.message)
}

/// The diagnostics from position `p` on, in order.
pub open spec fn enc_diag_list(ds: Seq<DiagnosticV>, p: int) -> Seq<u8>
    decreases ds.len() - p,
{
    if p < 0 || p >= ds.len() {
        Seq::empty()
    } else {
        enc_diag(ds[p]) + enc_diag_list(ds, p + 1)
    }
}

/// One artifact: its path, then its contents.
pub open spec fn enc_emitted(e: EmittedFileV) -> Seq<u8> {
    enc_text(e.path) + enc_text(e.contents)
}

/// The artifacts from position `p` on, in order.
pub open spec fn enc_emitted_list(es: Seq<EmittedFileV>, p: int) -> Seq<u8>
    decreases es.len() - p,
{
    if p < 0 || p >= es.len() {
        Seq::empty()
    } else {
        enc_emitted(es[p]) + enc_emitted_list(es, p + 1)
    }
}

/// The whole wire form of one result.
pub open spec fn enc_result(r: CompileResultV) -> Seq<u8> {
    seq![
        if r.success {
            1u8
        } else {
            0u8
        },
    ] + enc_u64(r.diagnostics.len() as u64) + enc_diag_list(r.diagnostics, 0) + enc_u64(
        r.emitted.len() as u64,
    ) + enc_emitted_list(r.emitted, 0)
}

proof fn lemma_enc_chars_push(s: Seq<char>, c: char, p: int)
    requires
        0 <= p <= s.len(),
    ensures
        enc_chars(s.push(c), p) == enc_chars(s, p) + enc_char(c),
    decreases s.len() - p,
{
    if p == s.len() {
        assert(s.push(c)[p] == c);
        assert(enc_chars(s.push(c), p + 1) =~= Seq::empty());
        assert(enc_chars(s.push(c), p) =~= enc_char(c) + enc_chars(s.push(c), p + 1));
        assert(enc_chars(s, p) =~= Seq::empty());
        assert(enc_chars(s.push(c), p) =~= enc_chars(s, p) + enc_char(c));
    } else {
        lemma_enc_chars_push(s, c, p + 1);
        assert(s.push(c)[p] == s[p]);
        assert(enc_chars(s.push(c), p) =~= enc_char(s[p]) + enc_chars(s.push(c), p + 1));
        assert(enc_chars(s, p) =~= enc_char(s[p]) + enc_chars(s, p + 1));
        assert(enc_chars(s.push(c), p) =~= enc_chars(s, p) + enc_char(c));
    }
}

proof fn lemma_enc_diag_list_push(ds: Seq<DiagnosticV>, d: DiagnosticV, p: int)
    requires
        0 <= p <= ds.len(),
    ensures
        enc_diag_list(ds.push(d), p) == enc_diag_list(ds, p) + enc_diag(d),
    decreases ds.len() - p,
{
    if p == ds.len() {
        assert(ds.push(d)[p] == d);
        assert(enc_diag_list(ds.push(d), p + 1) =~= Seq::empty());
        assert(enc_diag_list(ds.push(d), p) =~= enc_diag(d) + enc_diag_list(ds.push(d), p + 1));
        assert(enc_diag_list(ds, p) =~= Seq::empty());
        assert(enc_diag_list(ds.push(d), p) =~= enc_diag_list(ds, p) + enc_diag(d));
    } else {
        lemma_enc_diag_list_push(ds, d, p + 1);
        assert(ds.push(d)[p] == ds[p]);
        assert(enc_diag_list(ds.push(d), p) =~= enc_diag(ds[p]) + enc_diag_list(
            ds.push(d),
            p + 1,
        ));
        assert(enc_diag_list(ds, p) =~= enc_diag(ds[p]) + enc_diag_list(ds, p + 1));
        assert(enc_diag_list(ds.push(d), p) =~= enc_diag_list(ds, p) + enc_diag(d));
    }
}

proof fn lemma_enc_emitted_list_push(es: Seq<EmittedFileV>, e: EmittedFileV, p: int)
    requires
        0 <= p <= es.len(),
    ensures
        enc_emitted_list(es.push(e), p) == enc_emitted_list(es, p) + enc_emitted(e),
    decreases es.len() - p,
{
    if p == es.len() {
        assert(es.push(e)[p] == e);
        assert(enc_emitted_list(es.push(e), p + 1) =~= Seq::empty());
        assert(enc_emitted_list(es.push(e), p) =~= enc_emitted(e) + enc_emitted_list(
            es.push(e),
            p + 1,
        ));
        assert(enc_emitted_list(es, p) =~= Seq::empty());
        assert(enc_emitted_list(es.push(e), p) =~= enc_emitted_list(es, p) + enc_emitted(e));
    } else {
        lemma_enc_emitted_list_push(es, e, p + 1);
        assert(es.push(e)[p] == es[p]);
        assert(enc_emitted_list(es.push(e), p) =~= enc_emitted(es[p]) + enc_emitted_list(
            es.push(e),
            p + 1,
        ));
        assert(enc_emitted_list(es, p) =~= enc_emitted(es[p]) + enc_emitted_list(es, p + 1));
        assert(enc_emitted_list(es.push(e), p) =~= enc_emitted_list(es, p) + enc_emitted(e));
    }
}

fn push_u64(out: &mut Vec<u8>, n: u64)
    ensures
        final(out)@ == old(out)@ + enc_u64(n),
{
    out.push((n & 0xff) as u8);
    out.push(((n >> 8) & 0xff) as u8);
    out.push(((n >> 16) & 0xff) as u8);
    out.push(((n >> 24) & 0xff) as u8);
    out.push(((n >> 32) & 0xff) as u8);
    out.push(((n >> 40) & 0xff) as u8);
    out.push(((n >> 48) & 0xff) as u8);
    out.push(((n >> 56) & 0xff) as u8);
    assert(out@ =~= old(out)@ + enc_u64(n));
}

fn push_u32(out: &mut Vec<u8>, n: u32)
    ensures
        final(out)@ == old(out)@ + enc_u32(n),
{
    out.push((n & 0xff) as u8);
    out.push(((n >> 8) & 0xff) as u8);
    out.push(((n >> 16) & 0xff) as u8);
    out.push(((n >> 24) & 0xff) as u8);
    assert(out@ =~= old(out)@ + enc_u32(n));
}

fn push_text(out: &mut Vec<u8>, s: &str)
    ensures
        final(out)@ == old(out)@ + enc_text(s@),
{
    let n = s.unicode_len();
    push_u64(out, n as u64);
    let ghost head = out@;
    let mut i: usize = 0;
    while i < n
        invariant
            n == s@.len(),
            0 <= i <= n,
            out@ + enc_chars(s@, i as int) =~= head + enc_chars(s@, 0),
            head == old(out)@ + enc_u64(n as u64),
        decreases n - i,
    {
        let c = s.get_char(i);
        push_u32(out, c as u32);
        proof {
            assert(enc_chars(s@, i as int) =~= enc_char(s@[i as int]) + enc_chars(
                s@,
                i as int + 1,
            ));
        }
        i = i + 1;
    }
    assert(enc_chars(s@, n as int) =~= Seq::empty());
    assert(out@ =~= old(out)@ + enc_text(s@));
}

fn push_diag(out: &mut Vec<u8>, d: &Diagnostic)
    ensures
        final(out)@ == old(out)@ + enc_diag(d@),
{
    let tag: u8 = match d.severity {
        Severity::Error => 0,
        Severity::Warning => 1,
        Severity::Info => 2,
        Severity::Hint => 3,
    };
    out.push(tag);
    push_text(out, d.message.as_str());
    assert(out@ =~= old(out)@ + enc_diag(d@));
}

fn push_emitted(out: &mut Vec<u8>, e: &EmittedFile)
    ensures
        final(out)@ == old(out)@ + enc_emitted(e@),
{
    push_text(out, e.path.as_str());
    push_text(out, e.contents.as_str());
    assert(out@ =~= old(out)@ + enc_emitted(e@));
}

/// Marshals one result into its wire form.
pub fn encode_result(r: &CompileResult) -> (out: Vec<u8>)
    ensures
        out@ == enc_result(r@),
{
    let ghost dv = diag_views(r.diagnostics@);
    let ghost ev = emitted_views(r.emitted@);
    let mut out: Vec<u8> = Vec::new();
    let b: u8 = if r.success {
        1
    } else {
        0
    };
    out.push(b);
    push_u64(&mut out, r.diagnostics.len() as u64);
    let ghost head = out@;
    let mut i: usize = 0;
    while i < r.diagnostics.len()
        invariant
            dv == diag_views(r.diagnostics@),
            0 <= i <= dv.len(),
            out@ + enc_diag_list(dv, i as int) =~= head + enc_diag_list(dv, 0),
        decreases r.diagnostics.len() - i,
    {
        push_diag(&mut out, &r.diagnostics[i]);
        proof {
            assert(dv[i as int] == r.diagnostics@[i as int]@);
            assert(enc_diag_list(dv, i as int) =~= enc_diag(dv[i as int]) + enc_diag_list(
                dv,
                i as int + 1,
            ));
        }
        i = i + 1;
    }
    assert(enc_diag_list(dv, dv.len() as int) =~= Seq::empty());
    assert(out@ =~= head + enc_diag_list(dv, 0));
    push_u64(&mut out, r.emitted.len() as u64);
    let ghost head2 = out@;
    let mut j: usize = 0;
    while j < r.emitted.len()
        invariant
            ev == emitted_views(r.emitted@),
            0 <= j <= ev.len(),
            out@ + enc_emitted_list(ev, j as int) =~= head2 + enc_emitted_list(ev, 0),
        decreases r.emitted.len() - j,
    {
        push_emitted(&mut out, &r.emitted[j]);
        proof {
            assert(ev[j as int] == r.emitted@[j as int]@);
            assert(enc_emitted_list(ev, j as int) =~= enc_emitted(ev[j as int]) + enc_emitted_list(
                ev,
                j as int + 1,
            ));
        }
        j = j + 1;
    }
    assert(enc_emitted_list(ev, ev.len() as int) =~= Seq::empty());
    assert(out@ =~= enc_result(r@));
    out
}

/// Relies on char::from_u32: a value below the surrogate range or between
/// the end of the surrogate range and the largest code point converts to
/// the character with that code point; other values give `None`.
pub assume_specification[ char::from_u32 ](n: u32) -> (r: Option<char>)
    ensures
        r matches Some(c) ==> c as u32 == n,
        (n < 0xD800 || (0xE000 <= n && n <= 0x10FFFF)) ==> r is Some,
;

/// Relies on String::push: appends the one character to the end.
#[verifier::external_body]
fn push_char(s: &mut String, c: char)
    ensures
        final(s)@ == old(s)@.push(c),
{
    s.push(c);
}

/// Every character is a Unicode scalar value: its code point lies below
/// the surrogate range or between the end of the surrogate range and the
/// largest code point.
proof fn char_range(c: char)
    ensures
        (c as u32) < 0xD800 || (0xE000 <= (c as u32) && (c as u32) <= 0x10FFFF),
{
}

/// A length-prefixed text stands encoded in `bytes` from `pos` to `end`.
pub open spec fn text_at(bytes: Seq<u8>, pos: int, end: int, s: Seq<char>) -> bool {
    0 <= pos <= end <= bytes.len() && bytes.subrange(pos, end) == enc_text(s)
}

/// A diagnostic stands encoded in `bytes` from `pos` to `end`.
pub open spec fn diag_at(bytes: Seq<u8>, pos: int, end: int, d: DiagnosticV) -> bool {
    0 <= pos <= end <= bytes.len() && bytes.subrange(pos, end) == enc_diag(d)
}

/// A range that holds a concatenation splits at the seam.
proof fn lemma_split_at(bytes: Seq<u8>, pos: int, end: int, x: Seq<u8>, y: Seq<u8>)
    requires
        0 <= pos <= end <= bytes.len(),
        bytes.subrange(pos, end) == x + y,
    ensures
        pos + x.len() <= end,
        bytes.subrange(pos, pos + x.len()) == x,
        bytes.subrange(pos + x.len(), end) == y,
{
    assert(bytes.subrange(pos, end).len() == end - pos);
    assert((x + y).len() == x.len() + y.len());
    assert(end - pos == x.len() + y.len());
    assert forall|k: int| 0 <= k < x.len() implies bytes.subrange(pos, pos + x.len())[k]
        == x[k] by {
        assert((x + y)[k] == x[k]);
        assert(bytes.subrange(pos, end)[k] == bytes[pos + k]);
    }
    assert(bytes.subrange(pos, pos + x.len() as int) =~= x);
    assert forall|k: int| 0 <= k < y.len() implies bytes.subrange(pos + x.len(), end)[k]
        == y[k] by {
        assert((x + y)[x.len() + k] == y[k]);
        assert(bytes.subrange(pos, end)[x.len() + k] == bytes[pos + x.len() + k]);
    }
    assert(bytes.subrange(pos + x.len(), end) =~= y);
}

/// Two counts with the same eight wire bytes are the same count.
proof fn lemma_enc_u64_inj(a: u64, b: u64)
    requires
        enc_u64(a) == enc_u64(b),
    ensures
        a == b,
{
    assert(enc_u64(a)[0] == enc_u64(b)[0]);
    assert(enc_u64(a)[1] == enc_u64(b)[1]);
    assert(enc_u64(a)[2] == enc_u64(b)[2]);
    assert(enc_u64(a)[3] == enc_u64(b)[3]);
    assert(enc_u64(a)[4] == enc_u64(b)[4]);
    assert(enc_u64(a)[5] == enc_u64(b)[5]);
    assert(enc_u64(a)[6] == enc_u64(b)[6]);
    assert(enc_u64(a)[7] == enc_u64(b)[7]);
    assert(a == b) by (bit_vector)
        requires
            (a & 0xff) as u8 == (b & 0xff) as u8,
            ((a >> 8) & 0xff) as u8 == ((b >> 8) & 0xff) as u8,
            ((a >> 16) & 0xff) as u8 == ((b >> 16) & 0xff) as u8,
            ((a >> 24) & 0xff) as u8 == ((b >> 24) & 0xff) as u8,
            ((a >> 32) & 0xff) as u8 == ((b >> 32) & 0xff) as u8,
            ((a >> 40) & 0xff) as u8 == ((b >> 40) & 0xff) as u8,
            ((a >> 48) & 0xff) as u8 == ((b >> 48) & 0xff) as u8,
            ((a >> 56) & 0xff) as u8 == ((b >> 56) & 0xff) as u8,
    ;
}

/// Two code points with the same four wire bytes are the same code point.
proof fn lemma_enc_u32_inj(a: u32, b: u32)
    requires
        enc_u32(a) == enc_u32(b),
    ensures
        a == b,
{
    assert(enc_u32(a)[0] == enc_u32(b)[0]);
    assert(enc_u32(a)[1] == enc_u32(b)[1]);
    assert(enc_u32(a)[2] == enc_u32(b)[2]);
    assert(enc_u32(a)[3] == enc_u32(b)[3]);
    assert(a == b) by (bit_vector)
        requires
            (a & 0xff) as u8 == (b & 0xff) as u8,
            ((a >> 8) & 0xff) as u8 == ((b >> 8) & 0xff) as u8,
            ((a >> 16) & 0xff) as u8 == ((b >> 16) & 0xff) as u8,
            ((a >> 24) & 0xff) as u8 == ((b >> 24) & 0xff) as u8,
    ;
}

/// Characters take four bytes each on the wire.
proof fn lemma_enc_chars_len(s: Seq<char>, p: int)
    requires
        0 <= p <= s.len(),
    ensures
        enc_chars(s, p).len() == 4 * (s.len() - p),
    decreases s.len() - p,
{
    if p < s.len() {
        lemma_enc_chars_len(s, p + 1);
    }
}

/// A text takes eight bytes of length prefix plus four per character.
proof fn lemma_enc_text_len(s: Seq<char>)
    ensures
        enc_text(s).len() == 8 + 4 * s.len(),
{
    lemma_enc_chars_len(s, 0);
}

/// Two texts encoded at the same position end at the same position: the
/// length prefix fixes the extent.
proof fn lemma_text_extent(bytes: Seq<u8>, pos: int, e1: int, s1: Seq<char>, e2: int, s2: Seq<char>)
    requires
        bytes.len() < 0x10000000000000000,
        text_at(bytes, pos, e1, s1),
        text_at(bytes, pos, e2, s2),
    ensures
        e1 == e2,
        s1.len() == s2.len(),
{
    lemma_enc_text_len(s1);
    lemma_enc_text_len(s2);
    lemma_split_at(bytes, pos, e1, enc_u64(s1.len() as u64), enc_chars(s1, 0));
    lemma_split_at(bytes, pos, e2, enc_u64(s2.len() as u64), enc_chars(s2, 0));
    lemma_enc_u64_inj(s1.len() as u64, s2.len() as u64);
    assert(4 * s1.len() <= bytes.len() && 4 * s2.len() <= bytes.len());
    assert(s1.len() < 0x10000000000000000 && s2.len() < 0x10000000000000000);
    assert(s1.len() == s2.len());
}

/// Two pairs of texts encoded at the same position end at the same
/// position.
proof fn lemma_pair_extent(
    bytes: Seq<u8>,
    pos: int,
    e1: int,
    a1: Seq<char>,
    b1: Seq<char>,
    e2: int,
    a2: Seq<char>,
    b2: Seq<char>,
)
    requires
        bytes.len() < 0x10000000000000000,
        0 <= pos <= e1 <= bytes.len(),
        pos <= e2 <= bytes.len(),
        bytes.subrange(pos, e1) == enc_text(a1) + enc_text(b1),
        bytes.subrange(pos, e2) == enc_text(a2) + enc_text(b2),
    ensures
        e1 == e2,
{
    lemma_split_at(bytes, pos, e1, enc_text(a1), enc_text(b1));
    lemma_split_at(bytes, pos, e2, enc_text(a2), enc_text(b2));
    let m1 = pos + enc_text(a1).len() as int;
    let m2 = pos + enc_text(a2).len() as int;
    lemma_text_extent(bytes, pos, m1, a1, m2, a2);
    lemma_text_extent(bytes, m1, e1, b1, e2, b2);
}

/// Two diagnostics encoded at the same position end at the same position.
proof fn lemma_diag_extent(
    bytes: Seq<u8>,
    pos: int,
    e1: int,
    d1: DiagnosticV,
    e2: int,
    d2: DiagnosticV,
)
    requires
        bytes.len() < 0x10000000000000000,
        diag_at(bytes, pos, e1, d1),
        diag_at(bytes, pos, e2, d2),
    ensures
        e1 == e2,
{
    lemma_split_at(bytes, pos, e1, seq![severity_tag(d1.severity)], enc_text(d1.message));
    lemma_split_at(bytes, pos, e2, seq![severity_tag(d2.severity)], enc_text(d2.message));
    lemma_text_extent(bytes, pos + 1, e1, d1.message, e2, d2.message);
}

/// A diagnostic takes at least nine wire bytes, so a list of them takes
/// at least nine per entry.
proof fn lemma_diag_list_min(ds: Seq<DiagnosticV>, p: int)
    requires
        0 <= p <= ds.len(),
    ensures
        enc_diag_list(ds, p).len() >= 9 * (ds.len() - p),
    decreases ds.len() - p,
{
    if p < ds.len() {
        lemma_diag_list_min(ds, p + 1);
        lemma_enc_text_len(ds[p].message);
    }
}

/// An artifact takes at least sixteen wire bytes, so a list of them takes
/// at least sixteen per entry.
proof fn lemma_emitted_list_min(es: Seq<EmittedFileV>, p: int)
    requires
        0 <= p <= es.len(),
    ensures
        enc_emitted_list(es, p).len() >= 16 * (es.len() - p),
    decreases es.len() - p,
{
    if p < es.len() {
        lemma_emitted_list_min(es, p + 1);
        lemma_enc_text_len(es[p].path);
        lemma_enc_text_len(es[p].contents);
    }
}

fn read_u64(bytes: &Vec<u8>, pos: usize) -> (r: Option<(u64, usize)>)
    ensures
        r is None ==> bytes@.len() < pos + 8,
        r matches Some(v) ==> pos + 8 <= bytes@.len() && v.1 == pos + 8 && bytes@.subrange(
            pos as int,
            pos as int + 8,
        ) == enc_u64(v.0),
{
    if pos > bytes.len() || bytes.len() - pos < 8 {
        return Option::None;
    }
    let b0 = bytes[pos];
    let b1 = bytes[pos + 1];
    let b2 = bytes[pos + 2];
    let b3 = bytes[pos + 3];
    let b4 = bytes[pos + 4];
    let b5 = bytes[pos + 5];
    let b6 = bytes[pos + 6];
    let b7 = bytes[pos + 7];
    let n: u64 = (b0 as u64) | ((b1 as u64) << 8) | ((b2 as u64) << 16) | ((b3 as u64) << 24) | (
    (b4 as u64) << 32) | ((b5 as u64) << 40) | ((b6 as u64) << 48) | ((b7 as u64) << 56);
    proof {
        assert((n & 0xff) as u8 == b0 && ((n >> 8) & 0xff) as u8 == b1 && ((n >> 16) & 0xff) as u8
            == b2 && ((n >> 24) & 0xff) as u8 == b3 && ((n >> 32) & 0xff) as u8 == b4 && ((n >> 40)
            & 0xff) as u8 == b5 && ((n >> 48) & 0xff) as u8 == b6 && ((n >> 56) & 0xff) as u8
            == b7) by (bit_vector)
            requires
                n == (b0 as u64) | ((b1 as u64) << 8) | ((b2 as u64) << 16) | ((b3 as u64) << 24)
                    | ((b4 as u64) << 32) | ((b5 as u64) << 40) | ((b6 as u64) << 48) | ((
                b7 as u64) << 56),
        ;
        assert(bytes@.subrange(pos as int, pos as int + 8) =~= enc_u64(n));
    }
    Option::Some((n, pos + 8))
}

fn read_u32(bytes: &Vec<u8>, pos: usize) -> (r: Option<(u32, usize)>)
    ensures
        r is None ==> bytes@.len() < pos + 4,
        r matches Some(v) ==> pos + 4 <= bytes@.len() && v.1 == pos + 4 && bytes@.subrange(
            pos as int,
            pos as int + 4,
        ) == enc_u32(v.0),
{
    if pos > bytes.len() || bytes.len() - pos < 4 {
        return Option::None;
    }
    let b0 = bytes[pos];
    let b1 = bytes[pos + 1];
    let b2 = bytes[pos + 2];
    let b3 = bytes[pos + 3];
    let n: u32 = (b0 as u32) | ((b1 as u32) << 8) | ((b2 as u32) << 16) | ((b3 as u32) << 24);
    proof {
        assert((n & 0xff) as u8 == b0 && ((n >> 8) & 0xff) as u8 == b1 && ((n >> 16) & 0xff) as u8
            == b2 && ((n >> 24) & 0xff) as u8 == b3) by (bit_vector)
            requires
                n == (b0 as u32) | ((b1 as u32) << 8) | ((b2 as u32) << 16) | ((b3 as u32) << 24),
        ;
        assert(bytes@.subrange(pos as int, pos as int + 4) =~= enc_u32(n));
    }
    Option::Some((n, pos + 4))
}

#[verifier::loop_isolation(false)]
fn read_text(bytes: &Vec<u8>, pos: usize) -> (r: Option<(String, usize)>)
    ensures
        r matches Some(v) ==> pos <= v.1 <= bytes@.len() && bytes@.subrange(
            pos as int,
            v.1 as int,
        ) == enc_text(v.0@),
        (exists|s: Seq<char>, end: int| text_at(bytes@, pos as int, end, s)) ==> r is Some,
{
    let ghost hyp = exists|s: Seq<char>, end: int| text_at(bytes@, pos as int, end, s);
    let ghost (sw, endw): (Seq<char>, int) = choose|s: Seq<char>, end: int|
        text_at(bytes@, pos as int, end, s);
    proof {
        if hyp {
            lemma_enc_text_len(sw);
            lemma_split_at(bytes@, pos as int, endw, enc_u64(sw.len() as u64), enc_chars(sw, 0));
        }
    }
    let (len64, start) = match read_u64(bytes, pos) {
        Option::Some(v) => v,
        Option::None => {
            proof {
                if hyp {
                    assert(endw >= pos + 8);
                    assert(false);
                }
            }
            return Option::None;
        },
    };
    proof {
        if hyp {
            lemma_enc_u64_inj(len64, sw.len() as u64);
            assert(4 * sw.len() == endw - pos - 8);
            assert(bytes.len() == bytes@.len());
            assert(sw.len() < 0x10000000000000000);
            assert(len64 == sw.len());
            assert(endw == start + 4 * (len64 as int));
        }
    }
    let mut s = String::new();
    let mut p = start;
    let mut i: u64 = 0;
    while i < len64
        invariant
            start <= p <= bytes@.len(),
            0 <= i <= len64,
            s@.len() == i,
            p == start + 4 * i,
            bytes@.subrange(pos as int, p as int) =~= enc_u64(len64) + enc_chars(s@, 0),
            hyp ==> bytes@.subrange(p as int, endw) == enc_chars(sw, i as int),
        decreases len64 - i,
    {
        let (n, np) = match read_u32(bytes, p) {
            Option::Some(v) => v,
            Option::None => {
                proof {
                    if hyp {
                        assert(p + 4 <= endw);
                        assert(false);
                    }
                }
                return Option::None;
            },
        };
        proof {
            if hyp {
                assert(i < sw.len());
                assert(enc_chars(sw, i as int) == enc_char(sw[i as int]) + enc_chars(
                    sw,
                    i as int + 1,
                ));
                lemma_split_at(
                    bytes@,
                    p as int,
                    endw,
                    enc_char(sw[i as int]),
                    enc_chars(sw, i as int + 1),
                );
                assert(enc_char(sw[i as int]).len() == 4);
                assert(bytes@.subrange(p as int, p as int + 4) == enc_char(sw[i as int]));
                assert(enc_u32(n) == enc_u32(sw[i as int] as u32));
                lemma_enc_u32_inj(n, sw[i as int] as u32);
                assert(n == sw[i as int] as u32);
            }
        }
        let c = match char::from_u32(n) {
            Option::Some(c) => c,
            Option::None => {
                proof {
                    if hyp {
                        char_range(sw[i as int]);
                        assert(n < 0xD800 || (0xE000 <= n && n <= 0x10FFFF));
                        assert(false);
                    }
                }
                return Option::None;
            },
        };
        proof {
            lemma_enc_chars_push(s@, c, 0);
            assert(bytes@.subrange(pos as int, np as int) =~= bytes@.subrange(
                pos as int,
                p as int,
            ) + bytes@.subrange(p as int, np as int));
            assert(enc_u64(len64) + enc_chars(s@.push(c), 0) =~= (enc_u64(len64) + enc_chars(
                s@,
                0,
            )) + enc_char(c));
        }
        push_char(&mut s, c);
        p = np;
        i = i + 1;
    }
    assert(s@.len() as u64 == len64);
    assert(bytes@.subrange(pos as int, p as int) =~= enc_text(s@));
    Option::Some((s, p))
}

fn read_diag(bytes: &Vec<u8>, pos: usize) -> (r: Option<(Diagnostic, usize)>)
    ensures
        r matches Some(v) ==> pos <= v.1 <= bytes@.len() && bytes@.subrange(
            pos as int,
            v.1 as int,
        ) == enc_diag(v.0@),
        (exists|d: DiagnosticV, end: int| diag_at(bytes@, pos as int, end, d)) ==> r is Some,
{
    let ghost hyp = exists|d: DiagnosticV, end: int| diag_at(bytes@, pos as int, end, d);
    let ghost (dw, endw): (DiagnosticV, int) = choose|d: DiagnosticV, end: int|
        diag_at(bytes@, pos as int, end, d);
    proof {
        if hyp {
            lemma_enc_text_len(dw.message);
            lemma_split_at(
                bytes@,
                pos as int,
                endw,
                seq![severity_tag(dw.severity)],
                enc_text(dw.message),
            );
            assert(bytes@.subrange(pos as int, pos as int + 1)[0] == severity_tag(
                dw.severity,
            ));
            assert(bytes@.subrange(pos as int, pos as int + 1)[0] == bytes@[pos as int]);
            assert(bytes@[pos as int] == severity_tag(dw.severity));
        }
    }
    if pos >= bytes.len() {
        proof {
            if hyp {
                assert(endw >= pos + 9);
                assert(false);
            }
        }
        return Option::None;
    }
    let tag = bytes[pos];
    let severity = if tag == 0 {
        Severity::Error
    } else if tag == 1 {
        Severity::Warning
    } else if tag == 2 {
        Severity::Info
    } else if tag == 3 {
        Severity::Hint
    } else {
        proof {
            if hyp {
                assert(severity_tag(dw.severity) <= 3);
                assert(false);
            }
        }
        return Option::None;
    };
    let (message, np) = match read_text(bytes, pos + 1) {
        Option::Some(v) => v,
        Option::None => {
            proof {
                if hyp {
                    assert(text_at(bytes@, pos as int + 1, endw, dw.message));
                    assert(false);
                }
            }
            return Option::None;
        },
    };
    let d = Diagnostic { severity, message };
    proof {
        assert(severity_tag(d@.severity) == tag);
        assert(bytes@.subrange(pos as int, np as int) =~= seq![tag] + bytes@.subrange(
            pos as int + 1,
            np as int,
        ));
        assert(bytes@.subrange(pos as int, np as int) =~= enc_diag(d@));
    }
    Option::Some((d, np))
}

fn read_emitted(bytes: &Vec<u8>, pos: usize) -> (r: Option<(EmittedFile, usize)>)
    ensures
        r matches Some(v) ==> pos <= v.1 <= bytes@.len() && bytes@.subrange(
            pos as int,
            v.1 as int,
        ) == enc_emitted(v.0@),
        (exists|e: EmittedFileV, end: int|
            0 <= pos <= end <= bytes@.len() && bytes@.subrange(pos as int, end) == enc_emitted(
                e,
            )) ==> r is Some,
{
    let ghost hyp = exists|e: EmittedFileV, end: int|
        0 <= pos <= end <= bytes@.len() && bytes@.subrange(pos as int, end) == enc_emitted(e);
    let ghost (ew, endw): (EmittedFileV, int) = choose|e: EmittedFileV, end: int|
        0 <= pos <= end <= bytes@.len() && bytes@.subrange(pos as int, end) == enc_emitted(e);
    proof {
        if hyp {
            lemma_enc_text_len(ew.path);
            lemma_split_at(bytes@, pos as int, endw, enc_text(ew.path), enc_text(ew.contents));
        }
    }
    let ghost midw = pos as int + enc_text(ew.path).len() as int;
    let (path, mid) = match read_text(bytes, pos) {
        Option::Some(v) => v,
        Option::None => {
            proof {
                if hyp {
                    assert(text_at(bytes@, pos as int, midw, ew.path));
                    assert(false);
                }
            }
            return Option::None;
        },
    };
    proof {
        if hyp {
            assert(bytes.len() == bytes@.len());
            assert(text_at(bytes@, pos as int, midw, ew.path));
            assert(text_at(bytes@, pos as int, mid as int, path@));
            lemma_text_extent(bytes@, pos as int, mid as int, path@, midw, ew.path);
            assert(mid as int == midw);
        }
    }
    let (contents, np) = match read_text(bytes, mid) {
        Option::Some(v) => v,
        Option::None => {
            proof {
                if hyp {
                    assert(text_at(bytes@, mid as int, endw, ew.contents));
                    assert(false);
                }
            }
            return Option::None;
        },
    };
    let e = EmittedFile { path, contents };
    proof {
        assert(bytes@.subrange(pos as int, np as int) =~= bytes@.subrange(pos as int, mid as int)
            + bytes@.subrange(mid as int, np as int));
        assert(bytes@.subrange(pos as int, np as int) =~= enc_emitted(e@));
    }
    Option::Some((e, np))
}

/// Breaks the wire form of a result into its five fields.
proof fn lemma_result_unstitch(bytes: Seq<u8>, v: CompileResultV)
    requires
        bytes == enc_result(v),
    ensures
        bytes.len() == 17 + enc_diag_list(v.diagnostics, 0).len() + enc_emitted_list(
            v.emitted,
            0,
        ).len(),
        bytes[0] == (if v.success {
            1u8
        } else {
            0u8
        }),
        bytes.subrange(1, 9) == enc_u64(v.diagnostics.len() as u64),
        bytes.subrange(9, bytes.len() as int) == enc_diag_list(v.diagnostics, 0) + (enc_u64(
            v.emitted.len() as u64,
        ) + enc_emitted_list(v.emitted, 0)),
{
    let sb: Seq<u8> = seq![
        if v.success {
            1u8
        } else {
            0u8
        },
    ];
    let x1 = enc_u64(v.diagnostics.len() as u64);
    let x2 = enc_diag_list(v.diagnostics, 0);
    let x3 = enc_u64(v.emitted.len() as u64);
    let x4 = enc_emitted_list(v.emitted, 0);
    let blen = bytes.len() as int;
    assert(bytes =~= sb + (x1 + (x2 + (x3 + x4))));
    assert(bytes.subrange(0, blen) =~= bytes);
    lemma_split_at(bytes, 0, blen, sb, x1 + (x2 + (x3 + x4)));
    lemma_split_at(bytes, 1, blen, x1, x2 + (x3 + x4));
    assert(bytes.subrange(0, 1)[0] == bytes[0]);
    assert(bytes.subrange(0, 1)[0] == sb[0]);
}

/// Reassembles the wire form of a result from its five fields.
proof fn lemma_result_stitch(bytes: Seq<u8>, res: CompileResultV, dend: int)
    requires
        9 <= dend,
        dend + 8 <= bytes.len(),
        bytes.subrange(0, 1) == seq![
            if res.success {
                1u8
            } else {
                0u8
            },
        ],
        bytes.subrange(1, 9) == enc_u64(res.diagnostics.len() as u64),
        bytes.subrange(9, dend) == enc_diag_list(res.diagnostics, 0),
        bytes.subrange(dend, dend + 8) == enc_u64(res.emitted.len() as u64),
        bytes.subrange(dend + 8, bytes.len() as int) == enc_emitted_list(res.emitted, 0),
    ensures
        bytes == enc_result(res),
{
    assert(bytes =~= bytes.subrange(0, 1) + bytes.subrange(1, 9) + bytes.subrange(9, dend)
        + bytes.subrange(dend, dend + 8) + bytes.subrange(dend + 8, bytes.len() as int));
    assert(bytes =~= enc_result(res));
}

/// Unmarshals one result from its wire form.  The decoder is exact and
/// complete: it returns a result exactly when the whole input is, byte
/// for byte, the encoding of some result, and then returns that result.
#[verifier::loop_isolation(false)]
#[verifier::rlimit(100)]
pub fn decode_result(bytes: &Vec<u8>) -> (r: Option<CompileResult>)
    ensures
        r matches Some(res) ==> bytes@ == enc_result(res@),
        (exists|v: CompileResultV| bytes@ == enc_result(v)) ==> r is Some,
{
    let ghost hyp = exists|v: CompileResultV| bytes@ == enc_result(v);
    let ghost ev = choose|v: CompileResultV| bytes@ == enc_result(v);
    let ghost x1 = enc_u64(ev.diagnostics.len() as u64);
    let ghost x2 = enc_diag_list(ev.diagnostics, 0);
    let ghost x3 = enc_u64(ev.emitted.len() as u64);
    let ghost x4 = enc_emitted_list(ev.emitted, 0);
    let ghost blen = bytes@.len() as int;
    proof {
        if hyp {
            assert(bytes.len() == bytes@.len());
            lemma_result_unstitch(bytes@, ev);
            lemma_diag_list_min(ev.diagnostics, 0);
            lemma_emitted_list_min(ev.emitted, 0);
        }
    }
    if bytes.len() == 0 {
        proof {
            if hyp {
                assert(false);
            }
        }
        return Option::None;
    }
    let b = bytes[0];
    if b > 1 {
        proof {
            if hyp {
                assert(false);
            }
        }
        return Option::None;
    }
    let success = b == 1;
    let (dcount, dstart) = match read_u64(bytes, 1) {
        Option::Some(v) => v,
        Option::None => {
            proof {
                if hyp {
                    assert(blen >= 9);
                    assert(false);
                }
            }
            return Option::None;
        },
    };
    proof {
        if hyp {
            assert(bytes@.subrange(1, 9) == x1);
            lemma_enc_u64_inj(dcount, ev.diagnostics.len() as u64);
            assert(9 * ev.diagnostics.len() <= x2.len() <= blen);
            assert(ev.diagnostics.len() < 0x10000000000000000);
            assert(dcount == ev.diagnostics.len());
        }
    }
    let mut diags: Vec<Diagnostic> = Vec::new();
    let mut p = dstart;
    let mut i: u64 = 0;
    while i < dcount
        invariant
            dstart <= p <= bytes@.len(),
            0 <= i <= dcount,
            diags@.len() == i,
            bytes@.subrange(dstart as int, p as int) =~= enc_diag_list(diag_views(diags@), 0),
            hyp ==> bytes@.subrange(p as int, blen) == enc_diag_list(ev.diagnostics, i as int) + (
            x3 + x4),
        decreases dcount - i,
    {
        proof {
            if hyp {
                assert(i < ev.diagnostics.len());
                assert(enc_diag_list(ev.diagnostics, i as int) == enc_diag(
                    ev.diagnostics[i as int],
                ) + enc_diag_list(ev.diagnostics, i as int + 1));
                assert(bytes@.subrange(p as int, blen) =~= enc_diag(ev.diagnostics[i as int]) + (
                enc_diag_list(ev.diagnostics, i as int + 1) + (x3 + x4)));
                lemma_split_at(
                    bytes@,
                    p as int,
                    blen,
                    enc_diag(ev.diagnostics[i as int]),
                    enc_diag_list(ev.diagnostics, i as int + 1) + (x3 + x4),
                );
            }
        }
        let ghost mw = p as int + enc_diag(ev.diagnostics[i as int]).len() as int;
        let (d, np) = match read_diag(bytes, p) {
            Option::Some(v) => v,
            Option::None => {
                proof {
                    if hyp {
                        assert(diag_at(bytes@, p as int, mw, ev.diagnostics[i as int]));
                        assert(false);
                    }
                }
                return Option::None;
            },
        };
        proof {
            lemma_enc_diag_list_push(diag_views(diags@), d@, 0);
            assert(diag_views(diags@.push(d)) =~= diag_views(diags@).push(d@));
            assert(bytes@.subrange(dstart as int, np as int) =~= bytes@.subrange(
                dstart as int,
                p as int,
            ) + bytes@.subrange(p as int, np as int));
            if hyp {
                assert(diag_at(bytes@, p as int, mw, ev.diagnostics[i as int]));
                assert(diag_at(bytes@, p as int, np as int, d@));
                lemma_diag_extent(bytes@, p as int, np as int, d@, mw, ev.diagnostics[i as int]);
                assert(np as int == mw);
            }
        }
        diags.push(d);
        p = np;
        i = i + 1;
    }
    proof {
        if hyp {
            assert(enc_diag_list(ev.diagnostics, ev.diagnostics.len() as int) =~= Seq::empty());
            assert(bytes@.subrange(p as int, blen) =~= x3 + x4);
            lemma_split_at(bytes@, p as int, blen, x3, x4);
        }
    }
    let (ecount, estart) = match read_u64(bytes, p) {
        Option::Some(v) => v,
        Option::None => {
            proof {
                if hyp {
                    assert(blen >= p + 8);
                    assert(false);
                }
            }
            return Option::None;
        },
    };
    proof {
        if hyp {
            assert(bytes@.subrange(p as int, p as int + 8) == x3);
            lemma_enc_u64_inj(ecount, ev.emitted.len() as u64);
            assert(16 * ev.emitted.len() <= x4.len() <= blen);
            assert(ev.emitted.len() < 0x10000000000000000);
            assert(ecount == ev.emitted.len());
        }
    }
    let ghost dend = p as int;
    let mut emitted: Vec<EmittedFile> = Vec::new();
    let mut q = estart;
    let mut j: u64 = 0;
    while j < ecount
        invariant
            dend + 8 == estart <= q <= bytes@.len(),
            0 <= j <= ecount,
            emitted@.len() == j,
            bytes@.subrange(estart as int, q as int) =~= enc_emitted_list(
                emitted_views(emitted@),
                0,
            ),
            hyp ==> bytes@.subrange(q as int, blen) == enc_emitted_list(ev.emitted, j as int),
        decreases ecount - j,
    {
        proof {
            if hyp {
                assert(j < ev.emitted.len());
                assert(enc_emitted_list(ev.emitted, j as int) == enc_emitted(ev.emitted[j as int])
                    + enc_emitted_list(ev.emitted, j as int + 1));
                lemma_split_at(
                    bytes@,
                    q as int,
                    blen,
                    enc_emitted(ev.emitted[j as int]),
                    enc_emitted_list(ev.emitted, j as int + 1),
                );
            }
        }
        let ghost mw = q as int + enc_emitted(ev.emitted[j as int]).len() as int;
        let (e, nq) = match read_emitted(bytes, q) {
            Option::Some(v) => v,
            Option::None => {
                proof {
                    if hyp {
                        assert(bytes@.subrange(q as int, mw) == enc_emitted(ev.emitted[j as int]));
                        assert(false);
                    }
                }
                return Option::None;
            },
        };
        proof {
            lemma_enc_emitted_list_push(emitted_views(emitted@), e@, 0);
            assert(emitted_views(emitted@.push(e)) =~= emitted_views(emitted@).push(e@));
            assert(bytes@.subrange(estart as int, nq as int) =~= bytes@.subrange(
                estart as int,
                q as int,
            ) + bytes@.subrange(q as int, nq as int));
            if hyp {
                assert(enc_emitted(ev.emitted[j as int]) == enc_text(ev.emitted[j as int].path)
                    + enc_text(ev.emitted[j as int].contents));
                assert(enc_emitted(e@) == enc_text(e@.path) + enc_text(e@.contents));
                lemma_pair_extent(
                    bytes@,
                    q as int,
                    nq as int,
                    e@.path,
                    e@.contents,
                    mw,
                    ev.emitted[j as int].path,
                    ev.emitted[j as int].contents,
                );
                assert(nq as int == mw);
            }
        }
        emitted.push(e);
        q = nq;
        j = j + 1;
    }
    if q != bytes.len() {
        proof {
            if hyp {
                assert(enc_emitted_list(ev.emitted, ev.emitted.len() as int) =~= Seq::empty());
                assert(bytes@.subrange(q as int, blen).len() == 0);
                assert(false);
            }
        }
        return Option::None;
    }
    let res = CompileResult { success, diagnostics: diags, emitted };
    proof {
        assert(res@.diagnostics.len() as u64 == dcount);
        assert(res@.emitted.len() as u64 == ecount);
        assert(bytes@.subrange(0, 1) =~= seq![
            if res@.success {
                1u8
            } else {
                0u8
            },
        ]);
        lemma_result_stitch(bytes@, res@, dend);
    }
    Option::Some(res)
}


/// One virtual file: its path, then its contents.
pub open spec fn enc_file(f: SourceFileV) -> Seq<u8> {
    enc_text(f.path) + enc_text(f.contents)
}

/// The virtual files from position `p` on, in order.
pub open spec fn enc_file_list(fs: Seq<SourceFileV>, p: int) -> Seq<u8>
    decreases fs.len() - p,
{
    if p < 0 || p >= fs.len() {
        Seq::empty()
    } else {
        enc_file(fs[p]) + enc_file_list(fs, p + 1)
    }
}

/// The texts from position `p` on, each length-prefixed, in order.
pub open spec fn enc_text_list(ss: Seq<Seq<char>>, p: int) -> Seq<u8>
    decreases ss.len() - p,
{
    if p < 0 || p >= ss.len() {
        Seq::empty()
    } else {
        enc_text(ss[p]) + enc_text_list(ss, p + 1)
    }
}

/// The whole wire form of one call: the virtual files, the entry path,
/// and the options, each field in order and each list count-prefixed.
pub open spec fn enc_call(
    files: Seq<SourceFileV>,
    entry: Seq<char>,
    options: CompileOptionsV,
) -> Seq<u8> {
    enc_u64(files.len() as u64) + enc_file_list(files, 0) + enc_text(entry) + enc_u64(
        options.emitters.len() as u64,
    ) + enc_text_list(options.emitters, 0) + enc_text(options.output_dir) + enc_u64(
        options.arguments.len() as u64,
    ) + enc_text_list(options.arguments, 0)
}

proof fn lemma_enc_file_list_push(fs: Seq<SourceFileV>, f: SourceFileV, p: int)
    requires
        0 <= p <= fs.len(),
    ensures
        enc_file_list(fs.push(f), p) == enc_file_list(fs, p) + enc_file(f),
    decreases fs.len() - p,
{
    if p == fs.len() {
        assert(fs.push(f)[p] == f);
        assert(enc_file_list(fs.push(f), p + 1) =~= Seq::empty());
        assert(enc_file_list(fs.push(f), p) =~= enc_file(f) + enc_file_list(fs.push(f), p + 1));
        assert(enc_file_list(fs, p) =~= Seq::empty());
        assert(enc_file_list(fs.push(f), p) =~= enc_file_list(fs, p) + enc_file(f));
    } else {
        lemma_enc_file_list_push(fs, f, p + 1);
        assert(fs.push(f)[p] == fs[p]);
        assert(enc_file_list(fs.push(f), p) =~= enc_file(fs[p]) + enc_file_list(
            fs.push(f),
            p + 1,
        ));
        assert(enc_file_list(fs, p) =~= enc_file(fs[p]) + enc_file_list(fs, p + 1));
        assert(enc_file_list(fs.push(f), p) =~= enc_file_list(fs, p) + enc_file(f));
    }
}

proof fn lemma_enc_text_list_push(ss: Seq<Seq<char>>, s: Seq<char>, p: int)
    requires
        0 <= p <= ss.len(),
    ensures
        enc_text_list(ss.push(s), p) == enc_text_list(ss, p) + enc_text(s),
    decreases ss.len() - p,
{
    if p == ss.len() {
        assert(ss.push(s)[p] == s);
        assert(enc_text_list(ss.push(s), p + 1) =~= Seq::empty());
        assert(enc_text_list(ss.push(s), p) =~= enc_text(s) + enc_text_list(ss.push(s), p + 1));
        assert(enc_text_list(ss, p) =~= Seq::empty());
        assert(enc_text_list(ss.push(s), p) =~= enc_text_list(ss, p) + enc_text(s));
    } else {
        lemma_enc_text_list_push(ss, s, p + 1);
        assert(ss.push(s)[p] == ss[p]);
        assert(enc_text_list(ss.push(s), p) =~= enc_text(ss[p]) + enc_text_list(
            ss.push(s),
            p + 1,
        ));
        assert(enc_text_list(ss, p) =~= enc_text(ss[p]) + enc_text_list(ss, p + 1));
        assert(enc_text_list(ss.push(s), p) =~= enc_text_list(ss, p) + enc_text(s));
    }
}

fn push_file(out: &mut Vec<u8>, f: &SourceFile)
    ensures
        final(out)@ == old(out)@ + enc_file(f@),
{
    push_text(out, f.path.as_str());
    push_text(out, f.contents.as_str());
    assert(out@ =~= old(out)@ + enc_file(f@));
}

fn push_text_list(out: &mut Vec<u8>, ss: &Vec<String>)
    ensures
        final(out)@ == old(out)@ + enc_u64(ss@.len() as u64) + enc_text_list(string_views(ss@), 0),
{
    let ghost sv = string_views(ss@);
    push_u64(out, ss.len() as u64);
    let ghost head = out@;
    let mut i: usize = 0;
    while i < ss.len()
        invariant
            sv == string_views(ss@),
            0 <= i <= sv.len(),
            out@ + enc_text_list(sv, i as int) =~= head + enc_text_list(sv, 0),
        decreases ss.len() - i,
    {
        push_text(out, ss[i].as_str());
        proof {
            assert(sv[i as int] == ss@[i as int]@);
            assert(enc_text_list(sv, i as int) =~= enc_text(sv[i as int]) + enc_text_list(
                sv,
                i as int + 1,
            ));
        }
        i = i + 1;
    }
    assert(enc_text_list(sv, sv.len() as int) =~= Seq::empty());
    assert(out@ =~= old(out)@ + enc_u64(ss@.len() as u64) + enc_text_list(sv, 0));
}

/// Marshals one call into its wire form.
pub fn encode_call(files: &Vec<SourceFile>, entry: &str, options: &CompileOptions) -> (out: Vec<
    u8,
>)
    ensures
        out@ == enc_call(file_views(files@), entry@, options@),
{
    let ghost fv = file_views(files@);
    let mut out: Vec<u8> = Vec::new();
    push_u64(&mut out, files.len() as u64);
    let ghost head = out@;
    let mut i: usize = 0;
    while i < files.len()
        invariant
            fv == file_views(files@),
            0 <= i <= fv.len(),
            out@ + enc_file_list(fv, i as int) =~= head + enc_file_list(fv, 0),
        decreases files.len() - i,
    {
        push_file(&mut out, &files[i]);
        proof {
            assert(fv[i as int] == files@[i as int]@);
            assert(enc_file_list(fv, i as int) =~= enc_file(fv[i as int]) + enc_file_list(
                fv,
                i as int + 1,
            ));
        }
        i = i + 1;
    }
    assert(enc_file_list(fv, fv.len() as int) =~= Seq::empty());
    assert(out@ =~= head + enc_file_list(fv, 0));
    push_text(&mut out, entry);
    push_text_list(&mut out, &options.emitters);
    push_text(&mut out, options.output_dir.as_str());
    push_text_list(&mut out, &options.arguments);
    assert(out@ =~= enc_call(fv, entry@, options@));
    out
}


/// Texts on a list take at least eight wire bytes each.
proof fn lemma_text_list_min(ss: Seq<Seq<char>>, p: int)
    requires
        0 <= p <= ss.len(),
    ensures
        enc_text_list(ss, p).len() >= 8 * (ss.len() - p),
    decreases ss.len() - p,
{
    if p < ss.len() {
        lemma_text_list_min(ss, p + 1);
        lemma_enc_text_len(ss[p]);
    }
}

/// A virtual file takes at least sixteen wire bytes, so a list of them
/// takes at least sixteen per entry.
proof fn lemma_file_list_min(fs: Seq<SourceFileV>, p: int)
    requires
        0 <= p <= fs.len(),
    ensures
        enc_file_list(fs, p).len() >= 16 * (fs.len() - p),
    decreases fs.len() - p,
{
    if p < fs.len() {
        lemma_file_list_min(fs, p + 1);
        lemma_enc_text_len(fs[p].path);
        lemma_enc_text_len(fs[p].contents);
    }
}

/// A count-prefixed list of texts stands encoded in `bytes` from `pos`
/// to `end`.
pub open spec fn tlist_at(bytes: Seq<u8>, pos: int, end: int, ss: Seq<Seq<char>>) -> bool {
    0 <= pos <= end <= bytes.len() && bytes.subrange(pos, end) == enc_u64(ss.len() as u64)
        + enc_text_list(ss, 0)
}

/// Two runs of equally many texts encoded at the same position end at
/// the same position.
proof fn lemma_text_list_seq_extent(
    bytes: Seq<u8>,
    pos: int,
    ss1: Seq<Seq<char>>,
    p1: int,
    e1: int,
    ss2: Seq<Seq<char>>,
    p2: int,
    e2: int,
)
    requires
        bytes.len() < 0x10000000000000000,
        0 <= p1 <= ss1.len(),
        0 <= p2 <= ss2.len(),
        ss1.len() - p1 == ss2.len() - p2,
        0 <= pos <= e1 <= bytes.len(),
        pos <= e2 <= bytes.len(),
        bytes.subrange(pos, e1) == enc_text_list(ss1, p1),
        bytes.subrange(pos, e2) == enc_text_list(ss2, p2),
    ensures
        e1 == e2,
    decreases ss1.len() - p1,
{
    if p1 == ss1.len() {
        assert(bytes.subrange(pos, e1).len() == e1 - pos);
        assert(bytes.subrange(pos, e2).len() == e2 - pos);
    } else {
        lemma_split_at(bytes, pos, e1, enc_text(ss1[p1]), enc_text_list(ss1, p1 + 1));
        lemma_split_at(bytes, pos, e2, enc_text(ss2[p2]), enc_text_list(ss2, p2 + 1));
        let m1 = pos + enc_text(ss1[p1]).len() as int;
        let m2 = pos + enc_text(ss2[p2]).len() as int;
        lemma_text_extent(bytes, pos, m1, ss1[p1], m2, ss2[p2]);
        lemma_text_list_seq_extent(bytes, m1, ss1, p1 + 1, e1, ss2, p2 + 1, e2);
    }
}

/// Two count-prefixed lists of texts encoded at the same position end at
/// the same position: the count fixes how many texts follow, and each
/// text's length prefix fixes its extent.
proof fn lemma_tlist_extent(
    bytes: Seq<u8>,
    pos: int,
    e1: int,
    ss1: Seq<Seq<char>>,
    e2: int,
    ss2: Seq<Seq<char>>,
)
    requires
        bytes.len() < 0x10000000000000000,
        tlist_at(bytes, pos, e1, ss1),
        tlist_at(bytes, pos, e2, ss2),
    ensures
        e1 == e2,
{
    lemma_split_at(bytes, pos, e1, enc_u64(ss1.len() as u64), enc_text_list(ss1, 0));
    lemma_split_at(bytes, pos, e2, enc_u64(ss2.len() as u64), enc_text_list(ss2, 0));
    lemma_enc_u64_inj(ss1.len() as u64, ss2.len() as u64);
    lemma_text_list_min(ss1, 0);
    lemma_text_list_min(ss2, 0);
    assert(ss1.len() < 0x10000000000000000 && ss2.len() < 0x10000000000000000);
    assert(ss1.len() == ss2.len());
    lemma_text_list_seq_extent(bytes, pos + 8, ss1, 0, e1, ss2, 0, e2);
}

fn read_file(bytes: &Vec<u8>, pos: usize) -> (r: Option<(SourceFile, usize)>)
    ensures
        r matches Some(v) ==> pos <= v.1 <= bytes@.len() && bytes@.subrange(
            pos as int,
            v.1 as int,
        ) == enc_file(v.0@),
        (exists|f: SourceFileV, end: int|
            0 <= pos <= end <= bytes@.len() && bytes@.subrange(pos as int, end) == enc_file(
                f,
            )) ==> r is Some,
{
    let ghost hyp = exists|f: SourceFileV, end: int|
        0 <= pos <= end <= bytes@.len() && bytes@.subrange(pos as int, end) == enc_file(f);
    let ghost (fw, endw): (SourceFileV, int) = choose|f: SourceFileV, end: int|
        0 <= pos <= end <= bytes@.len() && bytes@.subrange(pos as int, end) == enc_file(f);
    proof {
        if hyp {
            lemma_enc_text_len(fw.path);
            lemma_split_at(bytes@, pos as int, endw, enc_text(fw.path), enc_text(fw.contents));
        }
    }
    let ghost midw = pos as int + enc_text(fw.path).len() as int;
    let (path, mid) = match read_text(bytes, pos) {
        Option::Some(v) => v,
        Option::None => {
            proof {
                if hyp {
                    assert(text_at(bytes@, pos as int, midw, fw.path));
                    assert(false);
                }
            }
            return Option::None;
        },
    };
    proof {
        if hyp {
            assert(bytes.len() == bytes@.len());
            assert(text_at(bytes@, pos as int, midw, fw.path));
            assert(text_at(bytes@, pos as int, mid as int, path@));
            lemma_text_extent(bytes@, pos as int, mid as int, path@, midw, fw.path);
            assert(mid as int == midw);
        }
    }
    let (contents, np) = match read_text(bytes, mid) {
        Option::Some(v) => v,
        Option::None => {
            proof {
                if hyp {
                    assert(text_at(bytes@, mid as int, endw, fw.contents));
                    assert(false);
                }
            }
            return Option::None;
        },
    };
    let f = SourceFile { path, contents };
    proof {
        assert(bytes@.subrange(pos as int, np as int) =~= bytes@.subrange(pos as int, mid as int)
            + bytes@.subrange(mid as int, np as int));
        assert(bytes@.subrange(pos as int, np as int) =~= enc_file(f@));
    }
    Option::Some((f, np))
}

#[verifier::loop_isolation(false)]
fn read_text_list(bytes: &Vec<u8>, pos: usize) -> (r: Option<(Vec<String>, usize)>)
    ensures
        r matches Some(v) ==> pos <= v.1 <= bytes@.len() && bytes@.subrange(
            pos as int,
            v.1 as int,
        ) == enc_u64(v.0@.len() as u64) + enc_text_list(string_views(v.0@), 0),
        (exists|ss: Seq<Seq<char>>, end: int| tlist_at(bytes@, pos as int, end, ss)) ==> r
            is Some,
{
    let ghost hyp = exists|ss: Seq<Seq<char>>, end: int| tlist_at(bytes@, pos as int, end, ss);
    let ghost (ssw, endw): (Seq<Seq<char>>, int) = choose|ss: Seq<Seq<char>>, end: int|
        tlist_at(bytes@, pos as int, end, ss);
    proof {
        if hyp {
            lemma_text_list_min(ssw, 0);
            lemma_split_at(
                bytes@,
                pos as int,
                endw,
                enc_u64(ssw.len() as u64),
                enc_text_list(ssw, 0),
            );
        }
    }
    let (count, start) = match read_u64(bytes, pos) {
        Option::Some(v) => v,
        Option::None => {
            proof {
                if hyp {
                    assert(endw >= pos + 8);
                    assert(false);
                }
            }
            return Option::None;
        },
    };
    proof {
        if hyp {
            assert(bytes.len() == bytes@.len());
            lemma_enc_u64_inj(count, ssw.len() as u64);
            assert(8 * ssw.len() <= endw - pos - 8);
            assert(ssw.len() < 0x10000000000000000);
            assert(count == ssw.len());
        }
    }
    let mut out: Vec<String> = Vec::new();
    let mut p = start;
    let mut i: u64 = 0;
    while i < count
        invariant
            start <= p <= bytes@.len(),
            0 <= i <= count,
            out@.len() == i,
            bytes@.subrange(start as int, p as int) =~= enc_text_list(string_views(out@), 0),
            hyp ==> p as int <= endw,
            hyp ==> bytes@.subrange(p as int, endw) == enc_text_list(ssw, i as int),
        decreases count - i,
    {
        proof {
            if hyp {
                assert(i < ssw.len());
                assert(enc_text_list(ssw, i as int) == enc_text(ssw[i as int]) + enc_text_list(
                    ssw,
                    i as int + 1,
                ));
                lemma_split_at(
                    bytes@,
                    p as int,
                    endw,
                    enc_text(ssw[i as int]),
                    enc_text_list(ssw, i as int + 1),
                );
            }
        }
        let ghost mw = p as int + enc_text(ssw[i as int]).len() as int;
        let (s, np) = match read_text(bytes, p) {
            Option::Some(v) => v,
            Option::None => {
                proof {
                    if hyp {
                        assert(text_at(bytes@, p as int, mw, ssw[i as int]));
                        assert(false);
                    }
                }
                return Option::None;
            },
        };
        proof {
            lemma_enc_text_list_push(string_views(out@), s@, 0);
            assert(string_views(out@.push(s)) =~= string_views(out@).push(s@));
            assert(bytes@.subrange(start as int, np as int) =~= bytes@.subrange(
                start as int,
                p as int,
            ) + bytes@.subrange(p as int, np as int));
            if hyp {
                assert(text_at(bytes@, p as int, mw, ssw[i as int]));
                assert(text_at(bytes@, p as int, np as int, s@));
                lemma_text_extent(bytes@, p as int, np as int, s@, mw, ssw[i as int]);
                assert(np as int == mw);
            }
        }
        out.push(s);
        p = np;
        i = i + 1;
    }
    proof {
        assert(out@.len() as u64 == count);
        assert(bytes@.subrange(pos as int, p as int) =~= bytes@.subrange(pos as int, start as int)
            + bytes@.subrange(start as int, p as int));
    }
    Option::Some((out, p))
}

/// Breaks the wire form of a call into its fields.
proof fn lemma_call_unstitch(bytes: Seq<u8>, fs: Seq<SourceFileV>, e: Seq<char>, o: CompileOptionsV)
    requires
        bytes == enc_call(fs, e, o),
    ensures
        bytes.len() == 24 + enc_file_list(fs, 0).len() + enc_text(e).len() + enc_text_list(
            o.emitters,
            0,
        ).len() + enc_text(o.output_dir).len() + enc_text_list(o.arguments, 0).len(),
        bytes.subrange(0, 8) == enc_u64(fs.len() as u64),
        bytes.subrange(8, bytes.len() as int) == enc_file_list(fs, 0) + (enc_text(e) + ((enc_u64(
            o.emitters.len() as u64,
        ) + enc_text_list(o.emitters, 0)) + (enc_text(o.output_dir) + (enc_u64(
            o.arguments.len() as u64,
        ) + enc_text_list(o.arguments, 0))))),
{
    let x0 = enc_u64(fs.len() as u64);
    let x1 = enc_file_list(fs, 0);
    let x2 = enc_text(e);
    let t3 = enc_u64(o.emitters.len() as u64) + enc_text_list(o.emitters, 0);
    let x5 = enc_text(o.output_dir);
    let t6 = enc_u64(o.arguments.len() as u64) + enc_text_list(o.arguments, 0);
    let blen = bytes.len() as int;
    assert(bytes =~= x0 + (x1 + (x2 + (t3 + (x5 + t6)))));
    assert(bytes.subrange(0, blen) =~= bytes);
    lemma_split_at(bytes, 0, blen, x0, x1 + (x2 + (t3 + (x5 + t6))));
}

/// Unmarshals one call from its wire form.  The decoder is exact and
/// complete in the same sense as `decode_result`.
#[verifier::loop_isolation(false)]
#[verifier::rlimit(100)]
pub fn decode_call(bytes: &Vec<u8>) -> (r: Option<(Vec<SourceFile>, String, CompileOptions)>)
    ensures
        r matches Some(v) ==> bytes@ == enc_call(file_views(v.0@), v.1@, v.2@),
        (exists|fs: Seq<SourceFileV>, e: Seq<char>, o: CompileOptionsV|
            bytes@ == enc_call(fs, e, o)) ==> r is Some,
{
    let ghost hyp = exists|fs: Seq<SourceFileV>, e: Seq<char>, o: CompileOptionsV|
        bytes@ == enc_call(fs, e, o);
    let ghost (fsw, ew, ow): (Seq<SourceFileV>, Seq<char>, CompileOptionsV) = choose|
        fs: Seq<SourceFileV>,
        e: Seq<char>,
        o: CompileOptionsV,
    | bytes@ == enc_call(fs, e, o);
    let ghost x2 = enc_text(ew);
    let ghost t3 = enc_u64(ow.emitters.len() as u64) + enc_text_list(ow.emitters, 0);
    let ghost x5 = enc_text(ow.output_dir);
    let ghost t6 = enc_u64(ow.arguments.len() as u64) + enc_text_list(ow.arguments, 0);
    let ghost blen = bytes@.len() as int;
    proof {
        if hyp {
            assert(bytes.len() == bytes@.len());
            lemma_call_unstitch(bytes@, fsw, ew, ow);
            lemma_file_list_min(fsw, 0);
        }
    }
    let (fcount, fstart) = match read_u64(bytes, 0) {
        Option::Some(v) => v,
        Option::None => {
            proof {
                if hyp {
                    assert(blen >= 8);
                    assert(false);
                }
            }
            return Option::None;
        },
    };
    proof {
        if hyp {
            assert(bytes@.subrange(0, 8) == enc_u64(fsw.len() as u64));
            lemma_enc_u64_inj(fcount, fsw.len() as u64);
            assert(16 * fsw.len() <= blen);
            assert(fsw.len() < 0x10000000000000000);
            assert(fcount == fsw.len());
        }
    }
    let mut files: Vec<SourceFile> = Vec::new();
    let mut p = fstart;
    let mut i: u64 = 0;
    while i < fcount
        invariant
            8 == fstart <= p <= bytes@.len(),
            0 <= i <= fcount,
            files@.len() == i,
            bytes@.subrange(fstart as int, p as int) =~= enc_file_list(file_views(files@), 0),
            hyp ==> bytes@.subrange(p as int, blen) == enc_file_list(fsw, i as int) + (x2 + (t3 + (
            x5 + t6))),
        decreases fcount - i,
    {
        proof {
            if hyp {
                assert(i < fsw.len());
                assert(enc_file_list(fsw, i as int) == enc_file(fsw[i as int]) + enc_file_list(
                    fsw,
                    i as int + 1,
                ));
                assert(bytes@.subrange(p as int, blen) =~= enc_file(fsw[i as int]) + (
                enc_file_list(fsw, i as int + 1) + (x2 + (t3 + (x5 + t6)))));
                lemma_split_at(
                    bytes@,
                    p as int,
                    blen,
                    enc_file(fsw[i as int]),
                    enc_file_list(fsw, i as int + 1) + (x2 + (t3 + (x5 + t6))),
                );
            }
        }
        let ghost mw = p as int + enc_file(fsw[i as int]).len() as int;
        let (f, np) = match read_file(bytes, p) {
            Option::Some(v) => v,
            Option::None => {
                proof {
                    if hyp {
                        assert(bytes@.subrange(p as int, mw) == enc_file(fsw[i as int]));
                        assert(false);
                    }
                }
                return Option::None;
            },
        };
        proof {
            lemma_enc_file_list_push(file_views(files@), f@, 0);
            assert(file_views(files@.push(f)) =~= file_views(files@).push(f@));
            assert(bytes@.subrange(fstart as int, np as int) =~= bytes@.subrange(
                fstart as int,
                p as int,
            ) + bytes@.subrange(p as int, np as int));
            if hyp {
                assert(enc_file(fsw[i as int]) == enc_text(fsw[i as int].path) + enc_text(
                    fsw[i as int].contents,
                ));
                assert(enc_file(f@) == enc_text(f@.path) + enc_text(f@.contents));
                lemma_pair_extent(
                    bytes@,
                    p as int,
                    np as int,
                    f@.path,
                    f@.contents,
                    mw,
                    fsw[i as int].path,
                    fsw[i as int].contents,
                );
                assert(np as int == mw);
            }
        }
        files.push(f);
        p = np;
        i = i + 1;
    }
    let ghost fend = p as int;
    proof {
        if hyp {
            assert(enc_file_list(fsw, fsw.len() as int) =~= Seq::empty());
            assert(bytes@.subrange(p as int, blen) =~= x2 + (t3 + (x5 + t6)));
            lemma_split_at(bytes@, p as int, blen, x2, t3 + (x5 + t6));
        }
    }
    let (entry, e_end) = match read_text(bytes, p) {
        Option::Some(v) => v,
        Option::None => {
            proof {
                if hyp {
                    assert(text_at(bytes@, fend, fend + x2.len(), ew));
                    assert(false);
                }
            }
            return Option::None;
        },
    };
    proof {
        if hyp {
            assert(text_at(bytes@, fend, fend + x2.len(), ew));
            assert(text_at(bytes@, fend, e_end as int, entry@));
            lemma_text_extent(bytes@, fend, e_end as int, entry@, fend + x2.len(), ew);
            assert(e_end == fend + x2.len());
            lemma_split_at(bytes@, e_end as int, blen, t3, x5 + t6);
        }
    }
    let (emitters, m_end) = match read_text_list(bytes, e_end) {
        Option::Some(v) => v,
        Option::None => {
            proof {
                if hyp {
                    assert(tlist_at(bytes@, e_end as int, e_end + t3.len(), ow.emitters));
                    assert(false);
                }
            }
            return Option::None;
        },
    };
    proof {
        if hyp {
            assert(tlist_at(bytes@, e_end as int, e_end + t3.len(), ow.emitters));
            assert(tlist_at(bytes@, e_end as int, m_end as int, string_views(emitters@)));
            lemma_tlist_extent(
                bytes@,
                e_end as int,
                m_end as int,
                string_views(emitters@),
                e_end + t3.len(),
                ow.emitters,
            );
            assert(m_end == e_end + t3.len());
            lemma_split_at(bytes@, m_end as int, blen, x5, t6);
        }
    }
    let (output_dir, d_end) = match read_text(bytes, m_end) {
        Option::Some(v) => v,
        Option::None => {
            proof {
                if hyp {
                    assert(text_at(bytes@, m_end as int, m_end + x5.len(), ow.output_dir));
                    assert(false);
                }
            }
            return Option::None;
        },
    };
    proof {
        if hyp {
            assert(text_at(bytes@, m_end as int, m_end + x5.len(), ow.output_dir));
            assert(text_at(bytes@, m_end as int, d_end as int, output_dir@));
            lemma_text_extent(
                bytes@,
                m_end as int,
                d_end as int,
                output_dir@,
                m_end + x5.len(),
                ow.output_dir,
            );
            assert(d_end == m_end + x5.len());
        }
    }
    let (arguments, a_end) = match read_text_list(bytes, d_end) {
        Option::Some(v) => v,
        Option::None => {
            proof {
                if hyp {
                    assert(tlist_at(bytes@, d_end as int, blen, ow.arguments));
                    assert(false);
                }
            }
            return Option::None;
        },
    };
    if a_end != bytes.len() {
        proof {
            if hyp {
                assert(tlist_at(bytes@, d_end as int, blen, ow.arguments));
                assert(tlist_at(bytes@, d_end as int, a_end as int, string_views(arguments@)));
                lemma_tlist_extent(
                    bytes@,
                    d_end as int,
                    a_end as int,
                    string_views(arguments@),
                    blen,
                    ow.arguments,
                );
                assert(false);
            }
        }
        return Option::None;
    }
    let options = CompileOptions { emitters, output_dir, arguments };
    proof {
        assert(files@.len() as u64 == fcount);
        assert(bytes@.subrange(0, 8) =~= enc_u64(fcount));
        assert(bytes@ =~= bytes@.subrange(0, 8) + bytes@.subrange(8, fend) + bytes@.subrange(
            fend,
            e_end as int,
        ) + bytes@.subrange(e_end as int, m_end as int) + bytes@.subrange(
            m_end as int,
            d_end as int,
        ) + bytes@.subrange(d_end as int, a_end as int));
        assert(bytes@ =~= enc_call(file_views(files@), entry@, options@));
    }
    Option::Some((files, entry, options))
}


} // verus!
