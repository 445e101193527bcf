//! Pure text transforms on UTF-8 byte strings: entity escaping for element
//! text and percent-encoding for URLs. Multi-byte UTF-8 sequences pass
//! through unchanged, byte by byte.

use vstd::prelude::*;

verus! {

/// `"`
pub const QUOT: u8 = 34;

/// `&`
pub const AMP: u8 = 38;

/// `'`
pub const APOS: u8 = 39;

/// `<`
pub const LT: u8 = 60;

/// `>`
pub const GT: u8 = 62;

/// `/`
pub const SLASH: u8 = 47;

/// `%`
pub const PERCENT: u8 = 37;

/// line feed
pub const NEWLINE: u8 = 10;

/// The five characters that element text must never contain verbatim.
pub open spec fn needs_text_escape(b: u8) -> bool {
    b == QUOT || b == AMP || b == LT || b == GT || b == APOS
}

/// What one byte of element text becomes after escaping.
pub open spec fn text_escape_byte(b: u8) -> Seq<u8> {
    if b == QUOT {
        seq![38u8, 113u8, 117u8, 111u8, 116u8, 59u8]  // &quot;
    } else if b == AMP {
        seq![38u8, 97u8, 109u8, 112u8, 59u8]  // &amp;
    } else if b == LT {
        seq![38u8, 108u8, 116u8, 59u8]  // &lt;
    } else if b == GT {
        seq![38u8, 103u8, 116u8, 59u8]  // &gt;
    } else if b == APOS {
        seq![38u8, 35u8, 120u8, 50u8, 55u8, 59u8]  // &#x27;
    } else {
        seq![b]
    }
}

/// What a whole run of element text becomes after escaping.
pub open spec fn text_escaped(s: Seq<u8>) -> Seq<u8>
    decreases s.len(),
{
    if s.len() == 0 {
        Seq::empty()
    } else {
        text_escaped(s.drop_last()) + text_escape_byte(s.last())
    }
}

/// Law: escaping is a no-op on text that contains none of `" & < > '`.
pub proof fn lemma_escape_text_noop(s: Seq<u8>)
    requires
        forall|i: int| 0 <= i < s.len() ==> !needs_text_escape(s[i]),
    ensures
        text_escaped(s) == s,
    decreases s.len(),
{
    if s.len() == 0 {
        assert(text_escaped(s) =~= s);
    } else {
        lemma_escape_text_noop(s.drop_last());
        assert(!needs_text_escape(s.last()));
        assert(text_escaped(s) =~= s);
    }
}

pub(crate) fn push_text_escaped(out: &mut Vec<u8>, b: u8)
    ensures
        final(out)@ == old(out)@ + text_escape_byte(b),
{
    let ghost start = out@;
    if b == QUOT {
        out.push(38);  // &
        out.push(113);  // q
        out.push(117);  // u
        out.push(111);  // o
        out.push(116);  // t
        out.push(59);  // ;
    } else if b == AMP {
        out.push(38);  // &
        out.push(97);  // a
        out.push(109);  // m
        out.push(112);  // p
        out.push(59);  // ;
    } else if b == LT {
        out.push(38);  // &
        out.push(108);  // l
        out.push(116);  // t
        out.push(59);  // ;
    } else if b == GT {
        out.push(38);  // &
        out.push(103);  // g
        out.push(116);  // t
        out.push(59);  // ;
    } else if b == APOS {
        out.push(38);  // &
        out.push(35);  // #
        out.push(120);  // x
        out.push(50);  // 2
        out.push(55);  // 7
        out.push(59);  // ;
    } else {
        out.push(b);
    }
    proof {
        assert(out@ =~= start + text_escape_byte(b));
    }
}

/// Appends the escaped form of `src` to `out`.
pub fn escape_text_into(src: &Vec<u8>, out: &mut Vec<u8>)
    ensures
        final(out)@ == old(out)@ + text_escaped(src@),
{
    let ghost start = out@;
    let mut i: usize = 0;
    while i < src.len()
        invariant
            i <= src.len(),
            out@ == start + text_escaped(src@.take(i as int)),
        decreases src.len() - i,
    {
        push_text_escaped(out, src[i]);
        proof {
            let p = src@.take(i + 1);
            assert(p.drop_last() =~= src@.take(i as int));
            assert(out@ =~= start + text_escaped(p));
        }
        i = i + 1;
    }
    proof {
        assert(src@.take(src@.len() as int) =~= src@);
    }
}

/// Escapes a run of element text: `" & < > '` become entities, every other
/// byte passes through unchanged.
pub fn escape_text(src: &Vec<u8>) -> (out: Vec<u8>)
    ensures
        out@ == text_escaped(src@),
{
    let mut out: Vec<u8> = Vec::new();
    escape_text_into(src, &mut out);
    out
}

/// The bytes a URL may keep verbatim: letters, digits, `~`, and
/// `- _ . + ! * ' ( ) , % # @ ? = ; : / &` — though `&` and `'`, while
/// members of the set, are entity-escaped anyway (the escape rules take
/// precedence over the safe set). The unreserved bytes are all in the
/// set, so an unreserved-only URL round-trips unchanged.
pub open spec fn href_safe_byte(b: u8) -> bool {
    (97 <= b && b <= 122)  // a-z
    || (65 <= b && b <= 90)  // A-Z
    || (48 <= b && b <= 57)  // 0-9
    || b == 45 || b == 95 || b == 46 || b == 126  // - _ . ~
    || b == 43 || b == 33 || b == 42 || b == APOS  // + ! * '
    || b == 40 || b == 41 || b == 44 || b == PERCENT  // ( ) , %
    || b == 35 || b == 64 || b == 63 || b == 61  // # @ ? =
    || b == 59 || b == 58 || b == SLASH || b == AMP  // ; : / &
}

/// The uppercase hexadecimal digit for a value below sixteen.
pub open spec fn hex_digit(v: u8) -> u8
    recommends
        v < 16,
{
    if v < 10 {
        (48 + v) as u8  // '0' + v
    } else {
        (55 + v) as u8  // 'A' + v - 10
    }
}

/// What one byte of a URL becomes: `&` and `'` become entities, other safe
/// bytes pass through, everything else is percent-encoded in uppercase hex.
pub open spec fn href_escape_byte(b: u8) -> Seq<u8> {
    if b == AMP {
        seq![38u8, 97u8, 109u8, 112u8, 59u8]  // &amp;
    } else if b == APOS {
        seq![38u8, 35u8, 120u8, 50u8, 55u8, 59u8]  // &#x27;
    } else if href_safe_byte(b) {
        seq![b]
    } else {
        seq![PERCENT, hex_digit(b / 16), hex_digit(b % 16)]
    }
}

/// What a whole URL becomes after percent-encoding.
pub open spec fn href_escaped(s: Seq<u8>) -> Seq<u8>
    decreases s.len(),
{
    if s.len() == 0 {
        Seq::empty()
    } else {
        href_escaped(s.drop_last()) + href_escape_byte(s.last())
    }
}

fn href_safe(b: u8) -> (r: bool)
    ensures
        r == href_safe_byte(b),
{
    (97 <= b && b <= 122) || (65 <= b && b <= 90) || (48 <= b && b <= 57) || b == 45 || b == 95
        || b == 46 || b == 126 || b == 43 || b == 33 || b == 42 || b == APOS || b == 40 || b == 41
        || b == 44 || b == PERCENT || b == 35 || b == 64 || b == 63 || b == 61 || b == 59
        || b == 58 || b == SLASH || b == AMP
}

fn hex_digit_of(v: u8) -> (r: u8)
    requires
        v < 16,
    ensures
        r == hex_digit(v),
{
    if v < 10 {
        48 + v
    } else {
        55 + v
    }
}

fn push_href_escaped(out: &mut Vec<u8>, b: u8)
    ensures
        final(out)@ == old(out)@ + href_escape_byte(b),
{
    let ghost start = out@;
    if b == AMP {
        out.push(38);  // &
        out.push(97);  // a
        out.push(109);  // m
        out.push(112);  // p
        out.push(59);  // ;
    } else if b == APOS {
        out.push(38);  // &
        out.push(35);  // #
        out.push(120);  // x
        out.push(50);  // 2
        out.push(55);  // 7
        out.push(59);  // ;
    } else if href_safe(b) {
        out.push(b);
    } else {
        assert(b / 16 < 16 && b % 16 < 16) by (nonlinear_arith);
        out.push(PERCENT);
        let hi: u8 = hex_digit_of(b / 16);
        out.push(hi);
        let lo: u8 = hex_digit_of(b % 16);
        out.push(lo);
    }
    proof {
        assert(out@ =~= start + href_escape_byte(b));
    }
}

/// Percent-encodes a URL: safe bytes pass through (except `&` and `'`,
/// which become entities), every other byte becomes `%XX` in uppercase hex.
pub fn escape_href(src: &Vec<u8>) -> (out: Vec<u8>)
    ensures
        out@ == href_escaped(src@),
{
    let mut out: Vec<u8> = Vec::new();
    let mut i: usize = 0;
    while i < src.len()
        invariant
            i <= src.len(),
            out@ == href_escaped(src@.take(i as int)),
        decreases src.len() - i,
    {
        push_href_escaped(&mut out, src[i]);
        proof {
            let p = src@.take(i + 1);
            assert(p.drop_last() =~= src@.take(i as int));
            assert(out@ =~= href_escaped(p));
        }
        i = i + 1;
    }
    proof {
        assert(src@.take(src@.len() as int) =~= src@);
    }
    out
}

/// Escapes the first `end` bytes of `src` into a fresh vector.
pub fn escape_text_prefix(src: &Vec<u8>, end: usize) -> (out: Vec<u8>)
    requires
        end <= src@.len(),
    ensures
        out@ == text_escaped(src@.take(end as int)),
{
    let mut out: Vec<u8> = Vec::new();
    let mut i: usize = 0;
    while i < end
        invariant
            i <= end <= src@.len(),
            out@ == text_escaped(src@.take(i as int)),
        decreases end - i,
    {
        push_text_escaped(&mut out, src[i]);
        proof {
            let p = src@.take(i + 1);
            assert(p.drop_last() =~= src@.take(i as int));
            assert(out@ =~= text_escaped(p));
        }
        i = i + 1;
    }
    out
}

} // verus!
