//! Cursors: positions over a sequence of characters that can be read ahead,
//! advanced, and taken back to an earlier state.

use std::collections::VecDeque;
use vstd::prelude::*;

verus! {

/// A cursor that can look at its next element without consuming it, and that
/// can be duplicated so that a trial match on the duplicate leaves it untouched.
pub trait PeekableExt: Sized {
    /// The cursor's internal invariant.
    spec fn wf(&self) -> bool;

    /// The elements that are yet to be consumed, in order.
    spec fn remaining(&self) -> Seq<char>;

    /// What is left of a well-formed cursor can be counted in a `usize`.
    proof fn lemma_bounded(&self)
        requires
            self.wf(),
        ensures
            self.remaining().len() <= usize::MAX,
    ;

    /// Peek at the next element without consuming it.
    fn peek(&self) -> (item: Option<char>)
        requires
            self.wf(),
        ensures
            item == first_of(self.remaining()),
    ;

    /// Consume one element.
    fn next(&mut self) -> (item: Option<char>)
        requires
            old(self).wf(),
        ensures
            final(self).wf(),
            item == first_of(old(self).remaining()),
            final(self).remaining() == rest_of(old(self).remaining()),
    ;

    /// A duplicate of the cursor: assigning it back restores this state.
    fn snapshot(&self) -> (copy: Self)
        requires
            self.wf(),
        ensures
            copy.wf(),
            copy.remaining() == self.remaining(),
    ;

    /// The number of elements that are yet to be consumed.
    fn remaining_len(&self) -> (n: usize)
        requires
            self.wf(),
        ensures
            n == self.remaining().len(),
    ;

    /// Replaces the cursor wholesale by an earlier duplicate of it.
    fn restore(&mut self, snapshot: Self)
        ensures
            *final(self) == snapshot,
    {
        *self = snapshot;
    }
}

/// The first element of a sequence, if it has one.
pub open spec fn first_of(s: Seq<char>) -> Option<char> {
    if s.len() > 0 {
        Some(s[0])
    } else {
        None
    }
}

/// A sequence without its first element; the empty sequence stays empty.
pub open spec fn rest_of(s: Seq<char>) -> Seq<char> {
    if s.len() > 0 {
        s.skip(1)
    } else {
        s
    }
}

/// A sequence from which a cursor can be started.
pub trait Iterable<'a> {
    type Iter: PeekableExt;

    /// The elements of the sequence, in order.
    spec fn elements(&self) -> Seq<char>;

    /// A cursor at the start of the sequence.
    fn get_iter(&'a self) -> (iter: Self::Iter)
        ensures
            iter.wf(),
            iter.remaining() == self.elements(),
    ;
}

/// A position in a slice of characters. Duplicating it copies two words.
#[derive(Clone, Copy, Debug)]
pub struct Cursor<'a> {
    items: &'a [char],
    pos: usize,
}

impl<'a> Cursor<'a> {
    /// A cursor at the start of `items`.
    pub fn new(items: &'a [char]) -> (cursor: Self)
        ensures
            cursor.wf(),
            cursor.remaining() == items@,
            cursor.consumed() == Seq::<char>::empty(),
    {
        let cursor = Cursor { items, pos: 0 };
        assert(items@.skip(0) =~= items@);
        assert(items@.take(0) =~= Seq::<char>::empty());
        cursor
    }

    /// The elements that the cursor has passed, in order.
    pub closed spec fn consumed(&self) -> Seq<char> {
        self.items@.take(self.pos as int)
    }

    /// The number of elements that the cursor has passed.
    pub fn position(&self) -> (pos: usize)
        requires
            self.wf(),
        ensures
            pos == self.consumed().len(),
    {
        self.pos
    }

    /// The elements that are yet to be consumed, copied out in order.
    pub fn rest(&self) -> (rest: Vec<char>)
        requires
            self.wf(),
        ensures
            rest@ == self.remaining(),
    {
        let mut rest: Vec<char> = Vec::new();
        let mut i: usize = self.pos;
        while i < self.items.len()
            invariant
                self.pos <= i <= self.items.len(),
                rest@ == self.items@.subrange(self.pos as int, i as int),
            decreases self.items.len() - i,
        {
            rest.push(self.items[i]);
            assert(self.items@.subrange(self.pos as int, i + 1) =~= self.items@.subrange(
                self.pos as int,
                i as int,
            ).push(self.items@[i as int]));
            i += 1;
        }
        assert(self.items@.subrange(self.pos as int, self.items@.len() as int)
            =~= self.items@.skip(self.pos as int));
        rest
    }
}

impl<'a> PeekableExt for Cursor<'a> {
    closed spec fn wf(&self) -> bool {
        self.pos <= self.items@.len()
    }

    closed spec fn remaining(&self) -> Seq<char> {
        self.items@.skip(self.pos as int)
    }

    proof fn lemma_bounded(&self) {
        assert(vstd::slice::spec_slice_len(self.items) == self.items@.len());
    }

    fn peek(&self) -> (item: Option<char>) {
        if self.pos < self.items.len() {
            Some(self.items[self.pos])
        } else {
            None
        }
    }

    fn next(&mut self) -> (item: Option<char>) {
        if self.pos < self.items.len() {
            let item = self.items[self.pos];
            self.pos = self.pos + 1;
            assert(old(self).items@.skip(old(self).pos as int).skip(1) =~= self.items@.skip(
                self.pos as int,
            ));
            Some(item)
        } else {
            None
        }
    }

    /// The duplicate stands at the same position of the same slice.
    fn snapshot(&self) -> (copy: Self)
        ensures
            copy == *self,
    {
        Cursor { items: self.items, pos: self.pos }
    }

    fn remaining_len(&self) -> (n: usize) {
        self.items.len() - self.pos
    }
}

impl<'a> Iterable<'a> for Vec<char> {
    type Iter = Cursor<'a>;

    open spec fn elements(&self) -> Seq<char> {
        self@
    }

    fn get_iter(&'a self) -> (iter: Cursor<'a>) {
        Cursor::new(self.as_slice())
    }
}

/// The characters of `text`, in order.
pub fn chars_of(text: &str) -> (chars: Vec<char>)
    ensures
        chars@ == text@,
{
    let mut chars: Vec<char> = Vec::new();
    for c in it: text.chars()
        invariant
            it.seq() == text@,
            chars@ == it.seq().take(it.index() as int),
    {
        chars.push(c);
    }
    chars
}

/// A cursor over a single-pass source that keeps a log of what it handed out
/// since the last checkpoint, so that a trial can be rolled back.
pub struct Checkpoint<I: PeekableExt> {
    inner: I,
    front: VecDeque<char>,
    trail: Vec<char>,
    in_trial: bool,
}

impl<I: PeekableExt> Checkpoint<I> {
    /// The elements handed out since the trial began, oldest first. Outside a
    /// trial nothing is buffered.
    pub closed spec fn buffered(&self) -> Seq<char> {
        self.trail@
    }

    /// Whether a trial is under way.
    pub closed spec fn in_trial(&self) -> bool {
        self.in_trial
    }

    /// What a rollback at this point would leave to be consumed.
    pub open spec fn origin(&self) -> Seq<char> {
        self.buffered() + self.remaining()
    }

    /// Wraps a source. No trial is under way.
    pub fn new(inner: I) -> (checkpoint: Self)
        requires
            inner.wf(),
        ensures
            checkpoint.wf(),
            checkpoint.remaining() == inner.remaining(),
            checkpoint.buffered() == Seq::<char>::empty(),
            !checkpoint.in_trial(),
    {
        proof {
            inner.lemma_bounded();
        }
        let checkpoint = Checkpoint {
            inner,
            front: VecDeque::new(),
            trail: Vec::new(),
            in_trial: false,
        };
        assert(checkpoint.front@ + checkpoint.inner.remaining() =~= inner.remaining());
        checkpoint
    }

    /// Starts a trial at the current position: from here on every element
    /// handed out is recorded.
    pub fn begin(&mut self)
        requires
            old(self).wf(),
        ensures
            final(self).wf(),
            final(self).in_trial(),
            final(self).buffered() == Seq::<char>::empty(),
            final(self).remaining() == old(self).remaining(),
    {
        self.trail.clear();
        self.in_trial = true;
    }

    /// Ends the trial and keeps what it consumed.
    pub fn commit(&mut self)
        requires
            old(self).wf(),
        ensures
            final(self).wf(),
            !final(self).in_trial(),
            final(self).buffered() == Seq::<char>::empty(),
            final(self).remaining() == old(self).remaining(),
    {
        self.trail.clear();
        self.in_trial = false;
    }

    /// Ends the trial and gives back what it consumed, in the order in which it
    /// came.
    pub fn rollback(&mut self)
        requires
            old(self).wf(),
        ensures
            final(self).wf(),
            !final(self).in_trial(),
            final(self).buffered() == Seq::<char>::empty(),
            final(self).remaining() == old(self).origin(),
    {
        loop
            invariant
                self.inner.wf(),
                self.inner.remaining() == old(self).inner.remaining(),
                self.trail@.len() + self.front@.len() + self.inner.remaining().len() <= usize::MAX,
                self.trail@ + self.front@ == old(self).trail@ + old(self).front@,
            ensures
                self.trail@.len() == 0,
            decreases self.trail@.len(),
        {
            let ghost trail = self.trail@;
            let ghost front = self.front@;
            match self.trail.pop() {
                Some(it) => {
                    self.front.push_front(it);
                    assert(self.trail@ + self.front@ =~= trail + front);
                },
                None => {
                    break ;
                },
            }
        }
        self.in_trial = false;
        assert(self.front@ + self.inner.remaining() =~= (old(self).trail@ + old(self).front@)
            + old(self).inner.remaining()) by {
            assert(self.trail@ + self.front@ =~= self.front@);
        }
        assert((old(self).trail@ + old(self).front@) + old(self).inner.remaining()
            =~= old(self).trail@ + (old(self).front@ + old(self).inner.remaining()));
    }

    /// The elements that are yet to be consumed, copied out in order. The
    /// cursor is left exhausted.
    pub fn collect(&mut self) -> (rest: Vec<char>)
        requires
            old(self).wf(),
        ensures
            final(self).wf(),
            rest@ == old(self).remaining(),
            final(self).remaining() == Seq::<char>::empty(),
    {
        let mut rest: Vec<char> = Vec::new();
        loop
            invariant
                self.wf(),
                rest@ + self.remaining() == old(self).remaining(),
            ensures
                self.wf(),
                self.remaining().len() == 0,
                rest@ + self.remaining() == old(self).remaining(),
            decreases self.remaining().len(),
        {
            let ghost before = self.remaining();
            let ghost got = rest@;
            match self.next() {
                Some(c) => {
                    rest.push(c);
                    assert(rest@ + self.remaining() =~= got + before);
                },
                None => {
                    break ;
                },
            }
        }
        assert(rest@ + self.remaining() =~= rest@);
        assert(self.remaining() =~= Seq::<char>::empty());
        rest
    }
}

impl<I: PeekableExt> PeekableExt for Checkpoint<I> {
    closed spec fn wf(&self) -> bool {
        &&& self.inner.wf()
        &&& self.trail@.len() + self.front@.len() + self.inner.remaining().len() <= usize::MAX
        &&& !self.in_trial ==> self.trail@.len() == 0
    }

    closed spec fn remaining(&self) -> Seq<char> {
        self.front@ + self.inner.remaining()
    }

    proof fn lemma_bounded(&self) {
    }

    fn peek(&self) -> (item: Option<char>) {
        if self.front.len() > 0 {
            Some(self.front[0])
        } else {
            self.inner.peek()
        }
    }

    /// Inside a trial the element handed out is also recorded, whether it
    /// came from the source or had been given back by an earlier rollback.
    fn next(&mut self) -> (item: Option<char>)
        ensures
            final(self).in_trial() == old(self).in_trial(),
            final(self).buffered() == match item {
                Some(c) if old(self).in_trial() => old(self).buffered().push(c),
                _ => old(self).buffered(),
            },
            old(self).in_trial() ==> final(self).origin() == old(self).origin(),
    {
        let ghost front = self.front@;
        let taken = match self.front.pop_front() {
            Some(it) => {
                assert(front.subrange(1, front.len() as int) + self.inner.remaining() =~= (front
                    + self.inner.remaining()).skip(1));
                Some(it)
            },
            None => {
                assert(front + self.inner.remaining() =~= self.inner.remaining());
                self.inner.next()
            },
        };
        assert(taken == first_of(old(self).remaining()));
        assert(self.remaining() == rest_of(old(self).remaining()));
        match taken {
            Some(it) => {
                if self.in_trial {
                    self.trail.push(it);
                }
                assert(old(self).remaining() =~= seq![it] + self.remaining());
                assert(old(self).in_trial() ==> self.origin() =~= old(self).origin());
                Some(it)
            },
            None => None,
        }
    }

    /// The duplicate is in the same trial, with the same elements recorded.
    fn snapshot(&self) -> (copy: Self)
        ensures
            copy.in_trial() == self.in_trial(),
            copy.buffered() == self.buffered(),
    {
        let copy = Checkpoint {
            inner: self.inner.snapshot(),
            front: self.front.clone(),
            trail: self.trail.clone(),
            in_trial: self.in_trial,
        };
        assert(copy.front@ =~= self.front@);
        assert(copy.trail@ =~= self.trail@);
        copy
    }

    fn remaining_len(&self) -> (n: usize) {
        self.front.len() + self.inner.remaining_len()
    }
}

} // verus!
