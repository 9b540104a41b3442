//! The canonical byte encoding that the change-detection fingerprint
//! hashes: texts, lists of texts and optional values, each unambiguous.
use vstd::prelude::*;
use crate::strset::texts;

verus! {

/// Byte that ends a text in the encoding (never part of UTF-8).
pub const TEXT_END: u8 = 0xff;

/// Byte that ends a list of texts in the encoding (never part of UTF-8).
pub const LIST_END: u8 = 0xfe;

/// A text: its UTF-8 bytes, then `TEXT_END`.
pub open spec fn text_code(t: Seq<char>) -> Seq<u8> {
    vstd::utf8::encode_utf8(t).push(TEXT_END)
}

/// The texts of a list, each encoded, in order (the list end is added by the user).
pub open spec fn texts_code(l: Seq<Seq<char>>) -> Seq<u8>
    decreases l.len(),
{
    if l.len() == 0 {
        seq![]
    } else {
        texts_code(l.drop_last()) + text_code(l.last())
    }
}

/// Appends the encoding of a text.
pub fn push_text(out: &mut Vec<u8>, s: &str)
    ensures
        final(out)@ == old(out)@ + text_code(s@),
{
    let mut b = s.as_bytes_vec();
    b.push(TEXT_END);
    out.append(&mut b);
    proof {
        assert(out@ =~= old(out)@ + text_code(s@));
    }
}

/// Appends the encodings of the texts of a list, in order.
pub fn push_texts(out: &mut Vec<u8>, l: &Vec<String>)
    ensures
        final(out)@ == old(out)@ + texts_code(texts(l@)),
{
    let mut i: usize = 0;
    proof {
        assert(texts(l@).take(0) =~= Seq::<Seq<char>>::empty());
        assert(out@ =~= old(out)@ + texts_code(texts(l@).take(0)));
    }
    while i < l.len()
        invariant
            0 <= i <= l@.len(),
            out@ == old(out)@ + texts_code(texts(l@).take(i as int)),
        decreases l@.len() - i,
    {
        let ghost before = out@;
        push_text(out, l[i].as_str());
        proof {
            let t = texts(l@);
            assert(t.take(i + 1).drop_last() =~= t.take(i as int));
            assert(t.take(i + 1).last() == l@[i as int]@);
            assert(out@ =~= old(out)@ + texts_code(t.take(i + 1)));
        }
        i += 1;
    }
    proof {
        assert(texts(l@).take(l@.len() as int) =~= texts(l@));
    }
}

proof fn lemma_scalar_bytes_below_markers(v: u32)
    ensures
        forall|k: int| 0 <= k < vstd::utf8::encode_scalar(v).len() ==> #[trigger] vstd::utf8::encode_scalar(v)[k] < LIST_END,
{
    assert(((v & 0x7F) as u8) < 0xfeu8) by (bit_vector);
    assert((0xC0u8 | (((v >> 6u32) & 0x1Fu32) as u8)) < 0xfeu8) by (bit_vector);
    assert((0xE0u8 | (((v >> 12u32) & 0x0Fu32) as u8)) < 0xfeu8) by (bit_vector);
    assert((0xF0u8 | (((v >> 18u32) & 0x7u32) as u8)) < 0xfeu8) by (bit_vector);
    assert((0x80u8 | ((v & 0x3Fu32) as u8)) < 0xfeu8) by (bit_vector);
    assert((0x80u8 | (((v >> 6u32) & 0x3Fu32) as u8)) < 0xfeu8) by (bit_vector);
    assert((0x80u8 | (((v >> 12u32) & 0x3Fu32) as u8)) < 0xfeu8) by (bit_vector);
}

/// UTF-8 never holds the two marker bytes.
proof fn lemma_utf8_below_markers(t: Seq<char>)
    ensures
        forall|k: int| 0 <= k < vstd::utf8::encode_utf8(t).len() ==> #[trigger] vstd::utf8::encode_utf8(t)[k] < LIST_END,
    decreases t.len(),
{
    if t.len() > 0 {
        lemma_utf8_below_markers(t.drop_first());
        lemma_scalar_bytes_below_markers(t[0] as u32);
        let a = vstd::utf8::encode_scalar(t[0] as u32);
        let b = vstd::utf8::encode_utf8(t.drop_first());
        assert(vstd::utf8::encode_utf8(t) == a + b);
        assert forall|k: int| 0 <= k < (a + b).len() implies #[trigger] (a + b)[k] < LIST_END by {
            if k < a.len() {
                assert((a + b)[k] == a[k]);
            } else {
                assert((a + b)[k] == b[k - a.len()]);
            }
        }
    }
}

/// The encoding of a text can be read back from the front of a longer
/// encoding: equal encodings start with the same text.
pub proof fn lemma_text_code_prefix(t1: Seq<char>, r1: Seq<u8>, t2: Seq<char>, r2: Seq<u8>)
    requires
        text_code(t1) + r1 == text_code(t2) + r2,
    ensures
        t1 == t2,
        r1 == r2,
{
    let e1 = vstd::utf8::encode_utf8(t1);
    let e2 = vstd::utf8::encode_utf8(t2);
    lemma_utf8_below_markers(t1);
    lemma_utf8_below_markers(t2);
    let x = text_code(t1) + r1;
    assert(x == text_code(t2) + r2);
    if e1.len() < e2.len() {
        assert(x[e1.len() as int] == TEXT_END);
        assert(x[e1.len() as int] == e2[e1.len() as int]);
    } else if e2.len() < e1.len() {
        assert(x[e2.len() as int] == TEXT_END);
        assert(x[e2.len() as int] == e1[e2.len() as int]);
    } else {
        assert(e1 =~= x.subrange(0, e1.len() as int));
        assert(e2 =~= x.subrange(0, e2.len() as int));
        assert(r1 =~= x.subrange(e1.len() + 1int, x.len() as int));
        assert(r2 =~= x.subrange(e2.len() + 1int, x.len() as int));
        vstd::utf8::encode_utf8_decode_utf8(t1);
        vstd::utf8::encode_utf8_decode_utf8(t2);
    }
}

proof fn lemma_texts_code_front(l: Seq<Seq<char>>)
    requires
        l.len() > 0,
    ensures
        texts_code(l) == text_code(l[0]) + texts_code(l.drop_first()),
    decreases l.len(),
{
    if l.len() == 1 {
        assert(l.drop_last() =~= Seq::<Seq<char>>::empty());
        assert(l.drop_first() =~= Seq::<Seq<char>>::empty());
        assert(texts_code(l.drop_last()) =~= Seq::<u8>::empty());
        assert(texts_code(l.drop_first()) =~= Seq::<u8>::empty());
        assert(l.last() == l[0]);
        assert(texts_code(l) =~= text_code(l[0]) + texts_code(l.drop_first()));
    } else {
        lemma_texts_code_front(l.drop_last());
        assert(l.drop_last().drop_first() =~= l.drop_first().drop_last());
        assert(l.drop_first().last() == l.last());
        assert(l.drop_last()[0] == l[0]);
        assert(texts_code(l) =~= text_code(l[0]) + texts_code(l.drop_first()));
    }
}

/// A list of texts closed by `LIST_END` can be read back from the front of a
/// longer encoding.
pub proof fn lemma_list_code_prefix(l1: Seq<Seq<char>>, r1: Seq<u8>, l2: Seq<Seq<char>>, r2: Seq<u8>)
    requires
        texts_code(l1) + seq![LIST_END] + r1 == texts_code(l2) + seq![LIST_END] + r2,
    ensures
        l1 == l2,
        r1 == r2,
    decreases l1.len() + l2.len(),
{
    let x = texts_code(l1) + seq![LIST_END] + r1;
    if l1.len() == 0 && l2.len() == 0 {
        assert(texts_code(l1) =~= Seq::<u8>::empty());
        assert(texts_code(l2) =~= Seq::<u8>::empty());
        assert(r1 =~= x.drop_first());
        assert(r2 =~= x.drop_first());
        assert(l1 =~= l2);
    } else if l1.len() == 0 {
        lemma_texts_code_front(l2);
        lemma_utf8_below_markers(l2[0]);
        assert(x[0] == LIST_END);
        let e = vstd::utf8::encode_utf8(l2[0]);
        if e.len() > 0 {
            assert(x[0] == e[0]);
        } else {
            assert(x[0] == TEXT_END);
        }
    } else if l2.len() == 0 {
        lemma_texts_code_front(l1);
        lemma_utf8_below_markers(l1[0]);
        assert(x[0] == LIST_END);
        let e = vstd::utf8::encode_utf8(l1[0]);
        if e.len() > 0 {
            assert(x[0] == e[0]);
        } else {
            assert(x[0] == TEXT_END);
        }
    } else {
        lemma_texts_code_front(l1);
        lemma_texts_code_front(l2);
        let s1 = texts_code(l1.drop_first()) + seq![LIST_END] + r1;
        let s2 = texts_code(l2.drop_first()) + seq![LIST_END] + r2;
        assert(x =~= text_code(l1[0]) + s1);
        assert(x =~= text_code(l2[0]) + s2);
        lemma_text_code_prefix(l1[0], s1, l2[0], s2);
        lemma_list_code_prefix(l1.drop_first(), r1, l2.drop_first(), r2);
        assert(l1 =~= seq![l1[0]] + l1.drop_first());
        assert(l2 =~= seq![l2[0]] + l2.drop_first());
    }
}

} // verus!
