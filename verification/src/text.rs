//! Text primitives shared by the argument and help-text logic.
use vstd::prelude::*;
use vstd::utf8::encode_utf8;

verus! {

/// Number of bytes in the UTF-8 encoding of `s`, which is what `str::len` reports.
pub open spec fn byte_len(s: Seq<char>) -> nat {
    encode_utf8(s).len()
}

/// `n` space characters.
pub open spec fn spaces(n: nat) -> Seq<char> {
    Seq::new(n, |_i: int| ' ')
}

/// The parts joined with `sep` between each neighbouring pair.
pub open spec fn join(parts: Seq<Seq<char>>, sep: Seq<char>) -> Seq<char>
    decreases parts.len(),
{
    if parts.len() == 0 {
        Seq::empty()
    } else if parts.len() == 1 {
        parts[0]
    } else {
        join(parts.drop_last(), sep) + sep + parts.last()
    }
}

/// Each part with `prefix` put before it.
pub open spec fn prefixed(parts: Seq<Seq<char>>, prefix: Seq<char>) -> Seq<Seq<char>> {
    parts.map_values(|p: Seq<char>| prefix + p)
}

/// The largest byte length among the parts, or `floor` when it is larger.
pub open spec fn max_byte_len(parts: Seq<Seq<char>>, floor: nat) -> nat
    decreases parts.len(),
{
    if parts.len() == 0 {
        floor
    } else {
        let m = max_byte_len(parts.drop_last(), floor);
        if byte_len(parts.last()) > m {
            byte_len(parts.last())
        } else {
            m
        }
    }
}

/// The largest byte length bounds the floor and every part, and is one of them.
pub proof fn lemma_max_byte_len(parts: Seq<Seq<char>>, floor: nat)
    ensures
        floor <= max_byte_len(parts, floor),
        forall|i: int| 0 <= i < parts.len() ==> byte_len(#[trigger] parts[i]) <= max_byte_len(parts, floor),
        max_byte_len(parts, floor) == floor || exists|i: int| 0 <= i < parts.len() && byte_len(#[trigger] parts[i]) == max_byte_len(parts, floor),
    decreases parts.len(),
{
    if parts.len() > 0 {
        lemma_max_byte_len(parts.drop_last(), floor);
        let m = max_byte_len(parts.drop_last(), floor);
        assert forall|i: int| 0 <= i < parts.len() implies byte_len(#[trigger] parts[i]) <= max_byte_len(parts, floor) by {
            if i < parts.len() - 1 {
                assert(parts.drop_last()[i] == parts[i]);
            }
        }
        if max_byte_len(parts, floor) != floor {
            if byte_len(parts.last()) > m {
                assert(byte_len(parts[parts.len() - 1]) == max_byte_len(parts, floor));
            } else {
                let i = choose|i: int| 0 <= i < parts.drop_last().len() && byte_len(#[trigger] parts.drop_last()[i]) == m;
                assert(parts.drop_last()[i] == parts[i]);
            }
        }
    }
}

/// The UTF-8 encoding of a concatenation is the concatenation of the encodings.
pub proof fn lemma_encode_utf8_concat(a: Seq<char>, b: Seq<char>)
    ensures
        encode_utf8(a + b) == encode_utf8(a) + encode_utf8(b),
    decreases a.len(),
{
    if a.len() == 0 {
        assert(a + b =~= b);
        assert(encode_utf8(a) =~= Seq::<u8>::empty());
        assert(encode_utf8(a) + encode_utf8(b) =~= encode_utf8(b));
    } else {
        lemma_encode_utf8_concat(a.drop_first(), b);
        assert((a + b).drop_first() =~= a.drop_first() + b);
        assert((a + b)[0] == a[0]);
    }
}

/// Byte length is additive over concatenation.
pub proof fn lemma_byte_len_concat(a: Seq<char>, b: Seq<char>)
    ensures
        byte_len(a + b) == byte_len(a) + byte_len(b),
{
    lemma_encode_utf8_concat(a, b);
}

/// A space is one byte, so `n` spaces are `n` bytes.
pub proof fn lemma_byte_len_spaces(n: nat)
    ensures
        byte_len(spaces(n)) == n,
{
    assert(vstd::utf8::is_ascii_chars(spaces(n)));
    vstd::utf8::is_ascii_chars_encode_utf8(spaces(n));
}

/// Number of bytes of the UTF-8 encoding of `s`.
pub fn str_byte_len(s: &str) -> (n: usize)
    ensures
        n == byte_len(s@),
{
    s.as_bytes().len()
}

/// The two strings hold the same characters.
pub fn str_eq(a: &str, b: &str) -> (r: bool)
    ensures
        r == (a@ == b@),
{
    let ab = a.as_bytes();
    let bb = b.as_bytes();
    if ab.len() != bb.len() {
        return false;
    }
    let mut i: usize = 0;
    while i < ab.len()
        invariant
            i <= ab@.len(),
            ab@.len() == bb@.len(),
            ab@ == encode_utf8(a@),
            bb@ == encode_utf8(b@),
            forall|j: int| 0 <= j < i ==> ab@[j] == bb@[j],
        decreases ab@.len() - i,
    {
        if ab[i] != bb[i] {
            return false;
        }
        i = i + 1;
    }
    proof {
        assert(ab@ =~= bb@);
        vstd::utf8::encode_utf8_decode_utf8(a@);
        vstd::utf8::encode_utf8_decode_utf8(b@);
    }
    true
}

/// Appends to `text` the parts, each with `prefix` before it, joined by `sep`.
pub fn push_joined(text: &mut String, parts: &Vec<String>, prefix: &str, sep: &str)
    ensures
        final(text)@ == old(text)@ + join(prefixed(crate::flag::strings_view(parts@), prefix@), sep@),
{
    let ghost all = prefixed(crate::flag::strings_view(parts@), prefix@);
    let ghost start = text@;
    let mut i: usize = 0;
    assert(all.take(0) =~= Seq::<Seq<char>>::empty());
    assert(start + join(all.take(0), sep@) =~= start);
    while i < parts.len()
        invariant
            i <= parts@.len(),
            all == prefixed(crate::flag::strings_view(parts@), prefix@),
            text@ == start + join(all.take(i as int), sep@),
        decreases parts@.len() - i,
    {
        let ghost before = text@;
        if i > 0 {
            text.append(sep);
        }
        text.append(prefix);
        text.append(parts[i].as_str());
        proof {
            let t = all.take(i + 1);
            assert(t.drop_last() =~= all.take(i as int));
            assert(t.last() == prefix@ + parts@[i as int]@);
            if i == 0 {
                assert(t.len() == 1);
                assert(join(all.take(0), sep@) =~= Seq::<char>::empty());
                assert(text@ =~= start + join(t, sep@));
            } else {
                assert(text@ =~= start + join(t, sep@));
            }
        }
        i = i + 1;
    }
    assert(all.take(parts@.len() as int) =~= all);
}

/// Appends `n` spaces to `text`.
pub fn push_spaces(text: &mut String, n: usize)
    ensures
        final(text)@ == old(text)@ + spaces(n as nat),
{
    let mut i: usize = 0;
    while i < n
        invariant
            i <= n,
            text@ == old(text)@ + spaces(i as nat),
        decreases n - i,
    {
        text.append(" ");
        proof {
            reveal_strlit(" ");
            assert(spaces((i + 1) as nat) =~= spaces(i as nat) + " "@);
        }
        i = i + 1;
    }
}

} // verus!
