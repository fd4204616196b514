//! Forward-peekable word streams: a wrap-around view of memory and a finite
//! cursor over a buffer.

use vstd::prelude::*;

verus! {

/// A stream of words that can be looked at one word ahead.
pub trait WordStream {
    /// The word that the `n`-th call of `next` from now will return, counting
    /// from 0, or `None` if the stream ends before that. A stream says here
    /// what it holds; for a stream that does not, nothing is known of it.
    open spec fn ahead(&self, n: nat) -> Option<u16> {
        arbitrary()
    }

    /// What the stream needs of its own state to be read.
    open spec fn wf(&self) -> bool {
        true
    }

    /// The next word, without taking it.
    fn peek(&self) -> (w: Option<u16>)
        requires
            self.wf(),
        ensures
            w == self.ahead(0),
    ;

    /// Takes the next word.
    fn next(&mut self) -> (w: Option<u16>)
        requires
            old(self).wf(),
        ensures
            final(self).wf(),
            w == old(self).ahead(0),
            forall|n: nat| #[trigger] final(self).ahead(n) == old(self).ahead(n + 1),
    ;
}

/// An endless stream over the first `max + 1` words of a buffer: after the
/// word at index `max` comes the word at index 0.
pub struct MemIterator<'a> {
    curr: usize,
    max: usize,
    data: &'a Vec<u16>,
}

impl<'a> MemIterator<'a> {
    /// The index of the word that `next` returns.
    pub closed spec fn position(&self) -> nat {
        self.curr as nat
    }

    /// The largest index that the stream reaches.
    pub closed spec fn limit(&self) -> nat {
        self.max as nat
    }

    /// The buffer that the stream reads.
    pub closed spec fn words(&self) -> Seq<u16> {
        self.data@
    }

    /// A stream over `src[0..=max]` that starts at index `skip` modulo
    /// `max + 1`.
    pub fn new(src: &'a Vec<u16>, skip: usize, max: usize) -> (it: MemIterator<'a>)
        requires
            max < src@.len(),
        ensures
            it.wf(),
            it.words() == src@,
            it.limit() == max,
            it.position() == skip as nat % (max as nat + 1),
    {
        assert(src@.len() == src.len());
        MemIterator { curr: skip % (max + 1), max, data: src }
    }
}

impl<'a> WordStream for MemIterator<'a> {
    closed spec fn ahead(&self, n: nat) -> Option<u16> {
        Some(self.data@[((self.curr as nat + n) % (self.max as nat + 1)) as int])
    }

    /// The position stays within the limit, and the limit within the buffer.
    closed spec fn wf(&self) -> bool {
        self.curr <= self.max && self.max < self.data@.len()
    }

    fn peek(&self) -> (w: Option<u16>) {
        assert((self.curr as nat + 0) % (self.max as nat + 1) == self.curr as nat) by {
            vstd::arithmetic::div_mod::lemma_small_mod(self.curr as nat, (self.max + 1) as nat);
        }
        Some(self.data[self.curr])
    }

    fn next(&mut self) -> (w: Option<u16>)
        ensures
            final(self).words() == old(self).words(),
            final(self).limit() == old(self).limit(),
            final(self).position() == (old(self).position() + 1) % (old(self).limit() + 1),
    {
        let ret: usize = self.curr;
        self.curr = if self.curr == self.max {
            0
        } else {
            self.curr + 1
        };
        proof {
            let m = (self.max + 1) as int;
            if ret == self.max {
                vstd::arithmetic::div_mod::lemma_mod_self_0(m);
            } else {
                vstd::arithmetic::div_mod::lemma_small_mod((ret + 1) as nat, m as nat);
            }
            vstd::arithmetic::div_mod::lemma_small_mod(ret as nat, m as nat);
            assert(self.curr as int == (ret as int + 1) % m);
            assert forall|n: nat| #[trigger] self.ahead(n) == old(self).ahead(n + 1) by {
                vstd::arithmetic::div_mod::lemma_add_mod_noop(ret as int + 1, n as int, m);
                vstd::arithmetic::div_mod::lemma_add_mod_noop(self.curr as int, n as int, m);
                vstd::arithmetic::div_mod::lemma_mod_twice(ret as int + 1, m);
                assert((self.curr as int + n as int) % m == (ret as int + 1 + n as int) % m);
            }
        }
        Some(self.data[ret])
    }
}

/// Every word of a wrap-around stream is the word of the buffer at the
/// position reached by counting on from the current one, modulo the
/// stream's length.
pub proof fn lemma_mem_iterator_ahead(it: MemIterator, n: nat)
    requires
        it.wf(),
    ensures
        it.ahead(n) == Some(it.words()[((it.position() + n) % (it.limit() + 1)) as int]),
        0 <= (it.position() + n) % (it.limit() + 1) < it.words().len(),
{
    vstd::arithmetic::div_mod::lemma_mod_bound((it.position() + n) as int, (it.limit() + 1) as int);
}

/// A finite stream over a buffer, from a starting index to the buffer's end.
pub struct WordCursor<'a> {
    pos: usize,
    data: &'a Vec<u16>,
}

impl<'a> WordCursor<'a> {
    /// The index of the word that `next` returns.
    pub closed spec fn position(&self) -> nat {
        self.pos as nat
    }

    /// The buffer that the stream reads.
    pub closed spec fn words(&self) -> Seq<u16> {
        self.data@
    }

    /// A stream over `src[pos..]`.
    pub fn new(src: &'a Vec<u16>, pos: usize) -> (it: WordCursor<'a>)
        requires
            pos <= src@.len(),
        ensures
            it.wf(),
            it.words() == src@,
            it.position() == pos,
    {
        WordCursor { pos, data: src }
    }

    /// The index of the word that `next` returns.
    pub fn index(&self) -> (p: usize)
        ensures
            p == self.position(),
    {
        self.pos
    }
}

impl<'a> WordStream for WordCursor<'a> {
    closed spec fn ahead(&self, n: nat) -> Option<u16> {
        if self.pos + n < self.data@.len() {
            Some(self.data@[self.pos + n])
        } else {
            None
        }
    }

    /// The position is at most the buffer's length.
    closed spec fn wf(&self) -> bool {
        self.pos <= self.data@.len()
    }

    fn peek(&self) -> (w: Option<u16>) {
        if self.pos < self.data.len() {
            Some(self.data[self.pos])
        } else {
            None
        }
    }

    fn next(&mut self) -> (w: Option<u16>)
        ensures
            final(self).words() == old(self).words(),
            final(self).position() == (if old(self).position() < old(self).words().len() {
                old(self).position() + 1
            } else {
                old(self).position()
            }),
    {
        if self.pos < self.data.len() {
            let w: u16 = self.data[self.pos];
            self.pos = self.pos + 1;
            Some(w)
        } else {
            None
        }
    }
}

/// A word of a finite stream is the word of the buffer that many places
/// after the position, and the stream ends where the buffer ends.
pub proof fn lemma_word_cursor_ahead(it: WordCursor, n: nat)
    ensures
        it.ahead(n) == (if it.position() + n < it.words().len() {
            Some(it.words()[(it.position() + n) as int])
        } else {
            None
        }),
{
}

} // verus!
