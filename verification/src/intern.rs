//! The identifier interner and text arena.
//!
//! Each distinct identifier spelling gets exactly one entry, indexed by
//! first-seen order. An entry is a byte range into the shared UTF-8 text
//! arena; repeated spellings reuse their existing entry.

use vstd::prelude::*;
use vstd::utf8::{encode_scalar, encode_utf8, char_is_scalar};
use crate::token::Identifier;

verus! {

/// The arena bytes for a sequence of spellings: their UTF-8 encodings back to
/// back, in order.
pub open spec fn arena_bytes(sps: Seq<Seq<char>>) -> Seq<u8>
    decreases sps.len(),
{
    if sps.len() == 0 {
        Seq::empty()
    } else {
        arena_bytes(sps.drop_last()) + encode_utf8(sps.last())
    }
}

/// The byte offset of spelling `k` inside the arena of `sps`.
pub open spec fn arena_offset(sps: Seq<Seq<char>>, k: int) -> int {
    arena_bytes(sps.take(k)).len() as int
}

/// `encode_utf8` distributes over concatenation.
pub proof fn lemma_encode_utf8_concat(a: Seq<char>, b: Seq<char>)
    ensures
        encode_utf8(a + b) == encode_utf8(a) + encode_utf8(b),
    decreases a.len(),
{
    if a.len() == 0 {
        assert(a + b =~= b);
        assert(encode_utf8(a) + encode_utf8(b) =~= encode_utf8(b));
    } else {
        assert((a + b).drop_first() =~= a.drop_first() + b);
        lemma_encode_utf8_concat(a.drop_first(), b);
        assert((a + b).len() != 0);
        assert(encode_utf8(a + b) == encode_scalar((a + b)[0] as u32) + encode_utf8(
            (a + b).drop_first(),
        ));
        assert(encode_scalar(a[0] as u32) + (encode_utf8(a.drop_first()) + encode_utf8(b)) =~= (
        encode_scalar(a[0] as u32) + encode_utf8(a.drop_first())) + encode_utf8(b));
    }
}

/// Spelling `k` occupies exactly the bytes
/// `[arena_offset(sps, k), arena_offset(sps, k) + |encode_utf8(sps[k])|)`
/// of the arena, and that range lies inside the arena.
pub proof fn lemma_arena_slice(sps: Seq<Seq<char>>, k: int)
    requires
        0 <= k < sps.len(),
    ensures
        arena_offset(sps, k) + encode_utf8(sps[k]).len() <= arena_bytes(sps).len(),
        0 <= arena_offset(sps, k),
        arena_bytes(sps).subrange(
            arena_offset(sps, k),
            arena_offset(sps, k) + encode_utf8(sps[k]).len(),
        ) == encode_utf8(sps[k]),
    decreases sps.len(),
{
    let n = sps.len() as int;
    if k == n - 1 {
        assert(sps.take(k) =~= sps.drop_last());
        assert(arena_bytes(sps).subrange(
            arena_offset(sps, k),
            arena_offset(sps, k) + encode_utf8(sps[k]).len(),
        ) =~= encode_utf8(sps[k]));
    } else {
        lemma_arena_slice(sps.drop_last(), k);
        assert(sps.drop_last().take(k) =~= sps.take(k));
        assert(sps.drop_last()[k] == sps[k]);
        let off = arena_offset(sps, k);
        let len = encode_utf8(sps[k]).len() as int;
        assert(arena_bytes(sps).subrange(off, off + len) =~= arena_bytes(sps.drop_last()).subrange(
            off,
            off + len,
        ));
    }
}

/// The identifier interner: the table of byte ranges, the flat text arena,
/// and (for bookkeeping) the spellings themselves.
pub struct Interner {
    pub spellings: Vec<Vec<char>>,
    pub id_table: Vec<Identifier>,
    pub text: Vec<u8>,
}

impl Interner {
    /// The interned spellings, in first-seen order.
    pub open spec fn spellings_seq(self) -> Seq<Seq<char>> {
        self.spellings@.map_values(|v: Vec<char>| v@)
    }

    /// Well-formed: one table entry per spelling, all spellings distinct, the
    /// arena is exactly their UTF-8 encodings back to back, and every entry
    /// records its spelling's byte range.
    pub open spec fn wf(self) -> bool {
        let sps = self.spellings_seq();
        &&& self.id_table@.len() == sps.len()
        &&& forall|j: int, k: int| 0 <= j < k < sps.len() ==> sps[j] != sps[k]
        &&& self.text@ == arena_bytes(sps)
        &&& forall|k: int|
            0 <= k < sps.len() ==> (#[trigger] self.id_table@[k]).text_begin == arena_offset(
                sps,
                k,
            ) && self.id_table@[k].text_len == encode_utf8(sps[k]).len()
    }

    /// A fresh, empty interner.
    pub fn new() -> (it: Interner)
        ensures
            it.wf(),
            it.spellings_seq().len() == 0,
    {
        let it = Interner { spellings: Vec::new(), id_table: Vec::new(), text: Vec::new() };
        proof {
            assert(it.spellings_seq() =~= Seq::<Seq<char>>::empty());
            assert(it.text@ =~= arena_bytes(it.spellings_seq()));
        }
        it
    }

    /// Interns `sp`: returns the existing index when the spelling was seen
    /// before (leaving the interner unchanged), else appends it with the next
    /// sequential index.
    pub fn intern(&mut self, sp: &Vec<char>) -> (idx: usize)
        requires
            old(self).wf(),
        ensures
            final(self).wf(),
            idx < final(self).spellings_seq().len(),
            final(self).spellings_seq()[idx as int] == sp@,
            (exists|k: int|
                0 <= k < old(self).spellings_seq().len() && old(self).spellings_seq()[k]
                    == sp@) ==> *final(self) == *old(self),
            !(exists|k: int|
                0 <= k < old(self).spellings_seq().len() && old(self).spellings_seq()[k]
                    == sp@) ==> {
                &&& final(self).spellings_seq() == old(self).spellings_seq().push(sp@)
                &&& idx == old(self).spellings_seq().len()
                &&& final(self).id_table@ == old(self).id_table@.push(
                    Identifier {
                        text_begin: old(self).text@.len() as usize,
                        text_len: encode_utf8(sp@).len() as usize,
                    },
                )
            },
    {
        let n = self.spellings.len();
        for k in 0..n
            invariant
                n == self.spellings@.len(),
                *self == *old(self),
                self.wf(),
                forall|j: int| 0 <= j < k ==> self.spellings_seq()[j] != sp@,
        {
            if char_vec_eq(&self.spellings[k], sp) {
                proof {
                    assert(old(self).spellings_seq()[k as int] == sp@);
                    assert(exists|j: int|
                        0 <= j < old(self).spellings_seq().len() && old(self).spellings_seq()[j]
                            == sp@);
                }
                return k;
            }
        }
        let idx = self.spellings.len();
        let ghost old_sps = old(self).spellings_seq();
        let ghost old_text = self.text@;
        let begin = self.text.len();
        let mut j: usize = 0;
        while j < sp.len()
            invariant
                j <= sp@.len(),
                self.spellings@ == old(self).spellings@,
                self.id_table@ == old(self).id_table@,
                self.text@ == old_text + encode_utf8(sp@.take(j as int)),
            decreases sp@.len() - j,
        {
            let ghost pre_text = self.text@;
            push_char_utf8(&mut self.text, sp[j]);
            proof {
                assert(sp@.take(j + 1) =~= sp@.take(j as int) + seq![sp@[j as int]]);
                lemma_encode_utf8_concat(sp@.take(j as int), seq![sp@[j as int]]);
                assert(encode_utf8(seq![sp@[j as int]]) =~= encode_scalar(sp@[j as int] as u32))
                    by {
                    reveal_with_fuel(encode_utf8, 2);
                    assert(seq![sp@[j as int]].drop_first() =~= Seq::<char>::empty());
                }
                assert(self.text@ =~= old_text + encode_utf8(sp@.take(j + 1)));
            }
            j = j + 1;
        }
        proof {
            assert(sp@.take(sp@.len() as int) =~= sp@);
        }
        let text_len = self.text.len() - begin;
        self.id_table.push(Identifier { text_begin: begin, text_len });
        self.spellings.push(clone_char_vec(sp));
        proof {
            let sps = self.spellings_seq();
            assert(sps =~= old_sps.push(sp@));
            assert(sps.drop_last() =~= old_sps);
            assert(sps.last() == sp@);
            assert(self.text@ =~= arena_bytes(sps));
            assert(sps.take(idx as int) =~= old_sps);
            assert forall|k: int| 0 <= k < sps.len() implies (#[trigger] self.id_table@[k]).text_begin
                == arena_offset(sps, k) && self.id_table@[k].text_len == encode_utf8(
                sps[k],
            ).len() by {
                if k < idx {
                    assert(sps.take(k) =~= old_sps.take(k));
                    assert(self.id_table@[k] == old(self).id_table@[k]);
                }
            }
        }
        idx
    }
}

/// Character-for-character equality of two character vectors.
pub fn char_vec_eq(a: &Vec<char>, b: &Vec<char>) -> (r: bool)
    ensures
        r == (a@ == b@),
{
    if a.len() != b.len() {
        return false;
    }
    let n = a.len();
    for i in 0..n
        invariant
            n == a@.len() == b@.len(),
            forall|j: int| 0 <= j < i ==> a@[j] == b@[j],
    {
        if a[i] != b[i] {
            return false;
        }
    }
    proof {
        assert(a@ =~= b@);
    }
    true
}

/// A copy of a character vector.
pub fn clone_char_vec(a: &Vec<char>) -> (r: Vec<char>)
    ensures
        r@ == a@,
{
    let mut r: Vec<char> = Vec::new();
    let n = a.len();
    for i in 0..n
        invariant
            n == a@.len(),
            r@ == a@.take(i as int),
    {
        r.push(a[i]);
        proof {
            assert(a@.take(i + 1) =~= a@.take(i as int).push(a@[i as int]));
        }
    }
    proof {
        assert(a@.take(n as int) =~= a@);
    }
    r
}

/// Appends the UTF-8 encoding of one character to a byte vector.
pub fn push_char_utf8(text: &mut Vec<u8>, c: char) -> (len: usize)
    ensures
        final(text)@ == old(text)@ + encode_scalar(c as u32),
        len == encode_scalar(c as u32).len(),
{
    let u = c as u32;
    proof {
        char_is_scalar(c);
    }
    if u < 0x80 {
        text.push((u & 0x7F) as u8);
        proof {
            assert(text@ =~= old(text)@ + encode_scalar(c as u32));
        }
        1
    } else if u < 0x800 {
        text.push(0xC0 | ((u >> 6) & 0x1F) as u8);
        text.push(0x80 | (u & 0x3F) as u8);
        proof {
            assert(text@ =~= old(text)@ + encode_scalar(c as u32));
        }
        2
    } else if u < 0x10000 {
        text.push(0xE0 | ((u >> 12) & 0x0F) as u8);
        text.push(0x80 | ((u >> 6) & 0x3F) as u8);
        text.push(0x80 | (u & 0x3F) as u8);
        proof {
            assert(text@ =~= old(text)@ + encode_scalar(c as u32));
        }
        3
    } else {
        text.push(0xF0 | ((u >> 18) & 0x7) as u8);
        text.push(0x80 | ((u >> 12) & 0x3F) as u8);
        text.push(0x80 | ((u >> 6) & 0x3F) as u8);
        text.push(0x80 | (u & 0x3F) as u8);
        proof {
            assert(text@ =~= old(text)@ + encode_scalar(c as u32));
        }
        4
    }
}

/// Two distinct entries of a well-formed interner never denote the same
/// spelling; together with `intern`'s contract (a repeated spelling returns
/// its existing index and leaves the table unchanged) this is the interning
/// law: equal spellings always map to one index, distinct spellings never
/// collide.
pub proof fn lemma_interner_injective(it: Interner, j: int, k: int)
    requires
        it.wf(),
        0 <= j < it.spellings_seq().len(),
        0 <= k < it.spellings_seq().len(),
        j != k,
    ensures
        it.spellings_seq()[j] != it.spellings_seq()[k],
{
}

} // verus!
