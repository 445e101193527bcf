//! Denylist-based neutralization of dangerous raw-HTML tag names: a `<`
//! that opens one of the blacklisted tags is replaced by `&lt;`, so the tag
//! can no longer take effect when the output is rendered.

use vstd::prelude::*;
use crate::escape::{GT, LT, SLASH};

verus! {

/// Whitespace in the C sense: tab, line feed, vertical tab, form feed,
/// carriage return, space.
pub open spec fn is_space_byte(b: u8) -> bool {
    b == 9 || b == 10 || b == 11 || b == 12 || b == 13 || b == 32
}

/// ASCII lower-casing of one byte; tag names match case-insensitively.
pub open spec fn ascii_lower(b: u8) -> u8 {
    if 65 <= b && b <= 90 {  // A-Z
        (b + 32) as u8
    } else {
        b
    }
}

/// The blacklisted tag names, in lower case.
pub open spec fn banned_name(k: int) -> Seq<u8> {
    if k == 0 {
        seq![116u8, 105u8, 116u8, 108u8, 101u8]  // title
    } else if k == 1 {
        seq![116u8, 101u8, 120u8, 116u8, 97u8, 114u8, 101u8, 97u8]  // textarea
    } else if k == 2 {
        seq![115u8, 116u8, 121u8, 108u8, 101u8]  // style
    } else if k == 3 {
        seq![120u8, 109u8, 112u8]  // xmp
    } else if k == 4 {
        seq![105u8, 102u8, 114u8, 97u8, 109u8, 101u8]  // iframe
    } else if k == 5 {
        seq![110u8, 111u8, 101u8, 109u8, 98u8, 101u8, 100u8]  // noembed
    } else if k == 6 {
        seq![110u8, 111u8, 102u8, 114u8, 97u8, 109u8, 101u8, 115u8]  // noframes
    } else if k == 7 {
        seq![115u8, 99u8, 114u8, 105u8, 112u8, 116u8]  // script
    } else if k == 8 {
        seq![112u8, 108u8, 97u8, 105u8, 110u8, 116u8, 101u8, 120u8, 116u8]  // plaintext
    } else {
        Seq::empty()
    }
}

/// How many names the blacklist holds.
pub open spec fn banned_name_count() -> int {
    9
}

/// The byte right after a matched tag name must close or continue the tag:
/// whitespace, `>`, or `/>`.
pub open spec fn follower_ok(s: Seq<u8>, e: int) -> bool
    recommends
        0 <= e < s.len(),
{
    is_space_byte(s[e]) || s[e] == GT || (s[e] == SLASH && e + 1 < s.len() && s[e + 1] == GT)
}

/// Whether `name` occurs case-insensitively at position `j` of `s`, with a
/// valid follower byte after it.
pub open spec fn name_match_at(s: Seq<u8>, j: int, name: Seq<u8>) -> bool {
    j + name.len() < s.len() && (forall|m: int|
        0 <= m < name.len() ==> ascii_lower(s[j + m]) == name[m]) && follower_ok(
        s,
        j + name.len(),
    )
}

/// Whether a blacklisted raw-HTML tag starts at position `p` of `s`:
/// `<`, an optional `/`, a blacklisted name, then whitespace, `>` or `/>`.
pub open spec fn is_banned_tag_at(s: Seq<u8>, p: int) -> bool {
    &&& p + 3 <= s.len()
    &&& 0 <= p
    &&& s[p] == LT
    &&& {
        let j: int = if s[p + 1] == SLASH {
            p + 2
        } else {
            p + 1
        };
        exists|k: int| 0 <= k < banned_name_count() && name_match_at(s, j, banned_name(k))
    }
}

/// Whether `s` itself begins with a blacklisted raw-HTML tag.
pub open spec fn is_banned_tag(s: Seq<u8>) -> bool {
    is_banned_tag_at(s, 0)
}

/// What the byte at position `i` contributes to the filtered output: `&lt;`
/// where a blacklisted tag starts, the byte itself everywhere else.
pub open spec fn filter_unit(s: Seq<u8>, i: int) -> Seq<u8>
    recommends
        0 <= i < s.len(),
{
    if s[i] == LT && is_banned_tag_at(s, i) {
        seq![38u8, 108u8, 116u8, 59u8]  // &lt;
    } else {
        seq![s[i]]
    }
}

/// The filtered form of `s` from position `i` on.
pub open spec fn tag_filtered_from(s: Seq<u8>, i: int) -> Seq<u8>
    recommends
        0 <= i <= s.len(),
    decreases s.len() - i,
{
    if 0 <= i < s.len() {
        filter_unit(s, i) + tag_filtered_from(s, i + 1)
    } else {
        Seq::empty()
    }
}

/// The filtered form of a whole raw-HTML block.
pub open spec fn tag_filtered(s: Seq<u8>) -> Seq<u8> {
    tag_filtered_from(s, 0)
}

fn is_space(b: u8) -> (r: bool)
    ensures
        r == is_space_byte(b),
{
    b == 9 || b == 10 || b == 11 || b == 12 || b == 13 || b == 32
}

fn lower_byte(b: u8) -> (r: u8)
    ensures
        r == ascii_lower(b),
{
    if 65 <= b && b <= 90 {
        b + 32
    } else {
        b
    }
}

fn banned_name_vec(k: usize) -> (r: Vec<u8>)
    requires
        k < 9,
    ensures
        r@ == banned_name(k as int),
{
    let mut v: Vec<u8> = Vec::new();
    if k == 0 {
        v.push(116);  // t
        v.push(105);  // i
        v.push(116);  // t
        v.push(108);  // l
        v.push(101);  // e
    } else if k == 1 {
        v.push(116);  // t
        v.push(101);  // e
        v.push(120);  // x
        v.push(116);  // t
        v.push(97);  // a
        v.push(114);  // r
        v.push(101);  // e
        v.push(97);  // a
    } else if k == 2 {
        v.push(115);  // s
        v.push(116);  // t
        v.push(121);  // y
        v.push(108);  // l
        v.push(101);  // e
    } else if k == 3 {
        v.push(120);  // x
        v.push(109);  // m
        v.push(112);  // p
    } else if k == 4 {
        v.push(105);  // i
        v.push(102);  // f
        v.push(114);  // r
        v.push(97);  // a
        v.push(109);  // m
        v.push(101);  // e
    } else if k == 5 {
        v.push(110);  // n
        v.push(111);  // o
        v.push(101);  // e
        v.push(109);  // m
        v.push(98);  // b
        v.push(101);  // e
        v.push(100);  // d
    } else if k == 6 {
        v.push(110);  // n
        v.push(111);  // o
        v.push(102);  // f
        v.push(114);  // r
        v.push(97);  // a
        v.push(109);  // m
        v.push(101);  // e
        v.push(115);  // s
    } else if k == 7 {
        v.push(115);  // s
        v.push(99);  // c
        v.push(114);  // r
        v.push(105);  // i
        v.push(112);  // p
        v.push(116);  // t
    } else {
        v.push(112);  // p
        v.push(108);  // l
        v.push(97);  // a
        v.push(105);  // i
        v.push(110);  // n
        v.push(116);  // t
        v.push(101);  // e
        v.push(120);  // x
        v.push(116);  // t
    }
    proof {
        assert(v@ =~= banned_name(k as int));
    }
    v
}

fn name_match(s: &Vec<u8>, j: usize, name: &Vec<u8>) -> (r: bool)
    requires
        j <= s@.len(),
    ensures
        r == name_match_at(s@, j as int, name@),
{
    if s.len() - j <= name.len() {
        return false;
    }
    let mut m: usize = 0;
    while m < name.len()
        invariant
            j + name@.len() < s@.len(),
            s@.len() <= usize::MAX,
            m <= name.len(),
            forall|q: int| 0 <= q < m ==> ascii_lower(s@[j + q]) == name@[q],
        decreases name.len() - m,
    {
        if lower_byte(s[j + m]) != name[m] {
            return false;
        }
        m = m + 1;
    }
    let e: usize = j + name.len();
    if is_space(s[e]) || s[e] == GT {
        true
    } else if s[e] == SLASH {
        e + 1 < s.len() && s[e + 1] == GT
    } else {
        false
    }
}

fn tagfilter_at(s: &Vec<u8>, pos: usize) -> (r: bool)
    requires
        pos <= s@.len(),
    ensures
        r == is_banned_tag_at(s@, pos as int),
{
    if s.len() - pos < 3 {
        return false;
    }
    if s[pos] != LT {
        return false;
    }
    let j: usize = if s[pos + 1] == SLASH {
        pos + 2
    } else {
        pos + 1
    };
    let mut k: usize = 0;
    while k < 9
        invariant
            k <= 9,
            pos + 3 <= s@.len(),
            s@[pos as int] == LT,
            j as int == if s@[pos + 1] == SLASH {
                pos + 2int
            } else {
                pos + 1int
            },
            j <= s@.len(),
            forall|q: int| 0 <= q < k ==> !name_match_at(s@, j as int, banned_name(q)),
        decreases 9 - k,
    {
        let name = banned_name_vec(k);
        if name_match(s, j, &name) {
            proof {
                assert(name_match_at(s@, j as int, banned_name(k as int)));
                assert(is_banned_tag_at(s@, pos as int));
            }
            return true;
        }
        k = k + 1;
    }
    false
}

/// Whether `literal` begins with a blacklisted raw-HTML tag, such as
/// `<script>` or `</STYLE ...`, case-insensitively.
pub fn tagfilter(literal: &Vec<u8>) -> (r: bool)
    ensures
        r == is_banned_tag(literal@),
{
    tagfilter_at(literal, 0)
}

/// Appends `input` to `o`, neutralizing every `<` that opens a blacklisted
/// tag by writing `&lt;` in its place, in one linear pass.
pub fn tagfilter_block(input: &Vec<u8>, o: &mut Vec<u8>)
    ensures
        final(o)@ == old(o)@ + tag_filtered(input@),
{
    let ghost start = o@;
    let mut i: usize = 0;
    while i < input.len()
        invariant
            i <= input.len(),
            o@ + tag_filtered_from(input@, i as int) == start + tag_filtered(input@),
        decreases input.len() - i,
    {
        let ghost before = o@;
        if input[i] == LT && tagfilter_at(input, i) {
            o.push(38);  // &
            o.push(108);  // l
            o.push(116);  // t
            o.push(59);  // ;
        } else {
            o.push(input[i]);
        }
        proof {
            assert(o@ =~= before + filter_unit(input@, i as int));
            assert(o@ + tag_filtered_from(input@, i + 1) =~= start + tag_filtered(input@));
        }
        i = i + 1;
    }
    proof {
        assert(o@ =~= o@ + tag_filtered_from(input@, input@.len() as int));
    }
}

} // verus!
