//! Decoding an Arrow stream while it is read.

use vstd::prelude::*;

verus! {

/// What is to be done next with a stream.
pub enum DecodeStep {
    /// Read more bytes.
    Read,
    /// Hand the bytes that were read to the decoder.
    Decode,
    /// Tell the decoder that the stream has ended.
    Finish,
}

/// How far a stream has been read and decoded.
pub struct ArrowDecoding {
    left: usize,
    ended: bool,
    events: Ghost<Seq<DecodeEvent>>,
}

impl ArrowDecoding {
    #[verifier::type_invariant]
    spec fn is_well_formed(self) -> bool {
        &&& is_run(self.events@)
        &&& self.left == left_after(self.events@)
        &&& self.ended == ended_after(self.events@)
    }

    /// What was noted of the stream so far.
    pub closed spec fn events(self) -> Seq<DecodeEvent> {
        self.events@
    }

    /// How many of the bytes that were read the decoder has not taken.
    pub closed spec fn undecoded(self) -> usize {
        self.left
    }

    /// Whether the stream has ended.
    pub closed spec fn has_ended(self) -> bool {
        self.ended
    }

    /// What is to be done next: all bytes are decoded before more are read, and the end is
    /// told only when nothing is left.
    pub open spec fn next_step(self) -> DecodeStep {
        if self.undecoded() > 0 {
            DecodeStep::Decode
        } else if self.has_ended() {
            DecodeStep::Finish
        } else {
            DecodeStep::Read
        }
    }

    /// A stream of which nothing was read.
    pub fn new() -> (r: Self)
        ensures
            r.undecoded() == 0,
            !r.has_ended(),
            r.events() == Seq::<DecodeEvent>::empty(),
    {
        ArrowDecoding { left: 0, ended: false, events: Ghost(Seq::empty()) }
    }

    /// What is to be done next. At any time the bytes that were read are those that the
    /// decoder took and those that it has not taken; in the end it has taken all.
    pub fn step(&self) -> (r: DecodeStep)
        ensures
            r == self.next_step(),
            is_run(self.events()),
            self.undecoded() == left_after(self.events()),
            self.has_ended() == ended_after(self.events()),
            total_read(self.events()) == total_taken(self.events()) + self.undecoded(),
            r is Finish ==> total_read(self.events()) == total_taken(self.events()),
    {
        proof {
            use_type_invariant(self);
            law_every_byte_is_decoded_once(self.events@);
        }
        if self.left > 0 {
            DecodeStep::Decode
        } else if self.ended {
            DecodeStep::Finish
        } else {
            DecodeStep::Read
        }
    }

    /// Takes note of a read; one that brings no bytes is the end of the stream.
    pub fn note_read(&mut self, count: usize)
        requires
            old(self).next_step() is Read,
        ensures
            final(self).undecoded() == count,
            final(self).has_ended() == (count == 0),
            final(self).events() == old(self).events().push(DecodeEvent::Read(count)),
    {
        proof {
            use_type_invariant(&*self);
            assert(self.events@.push(DecodeEvent::Read(count)).drop_last() =~= self.events@);
        }
        let ghost events = self.events@.push(DecodeEvent::Read(count));
        *self = ArrowDecoding { left: count, ended: count == 0, events: Ghost(events) };
    }

    /// Takes note of how many bytes the decoder has left.
    pub fn note_decode(&mut self, left: usize)
        requires
            old(self).next_step() is Decode,
            left <= old(self).undecoded(),
        ensures
            final(self).undecoded() == left,
            final(self).has_ended() == old(self).has_ended(),
            final(self).events() == old(self).events().push(DecodeEvent::Decoded(left)),
    {
        proof {
            use_type_invariant(&*self);
            assert(self.events@.push(DecodeEvent::Decoded(left)).drop_last() =~= self.events@);
        }
        let ghost events = self.events@.push(DecodeEvent::Decoded(left));
        *self = ArrowDecoding { left, ended: self.ended, events: Ghost(events) };
    }
}

/// More is read, and the end of the stream is told, only when all that was read is
/// decoded.
pub proof fn law_nothing_is_left_undecoded(decoding: ArrowDecoding)
    ensures
        decoding.next_step() is Read ==> decoding.undecoded() == 0 && !decoding.has_ended(),
        decoding.next_step() is Finish ==> decoding.undecoded() == 0 && decoding.has_ended(),
        decoding.undecoded() > 0 ==> decoding.next_step() is Decode,
{
}

/// What was noted of a stream.
pub enum DecodeEvent {
    /// This many bytes were read.
    Read(usize),
    /// The decoder left this many bytes.
    Decoded(usize),
}

/// How many bytes the decoder has not taken after these events.
pub open spec fn left_after(events: Seq<DecodeEvent>) -> int {
    if events.len() == 0 {
        0
    } else {
        match events.last() {
            DecodeEvent::Read(count) => count as int,
            DecodeEvent::Decoded(left) => left as int,
        }
    }
}

/// Whether the stream has ended after these events: the last read brought no bytes.
pub open spec fn ended_after(events: Seq<DecodeEvent>) -> bool {
    events.len() > 0 && events.last() == DecodeEvent::Read(0)
}

/// Events in which bytes are read only when none are left, and decoded only when some are.
/// Nothing follows the end of the stream.
pub open spec fn is_run(events: Seq<DecodeEvent>) -> bool
    decreases events.len(),
{
    events.len() > 0 ==> {
        let front = events.drop_last();
        &&& is_run(front)
        &&& !ended_after(front)
        &&& match events.last() {
            DecodeEvent::Read(_) => left_after(front) == 0,
            DecodeEvent::Decoded(left) => 0 < left_after(front) && left <= left_after(front),
        }
    }
}

/// How many bytes were read in all.
pub open spec fn total_read(events: Seq<DecodeEvent>) -> int
    decreases events.len(),
{
    if events.len() == 0 {
        0
    } else {
        total_read(events.drop_last()) + match events.last() {
            DecodeEvent::Read(count) => count as int,
            DecodeEvent::Decoded(_) => 0,
        }
    }
}

/// How many bytes the decoder took in all.
pub open spec fn total_taken(events: Seq<DecodeEvent>) -> int
    decreases events.len(),
{
    if events.len() == 0 {
        0
    } else {
        total_taken(events.drop_last()) + match events.last() {
            DecodeEvent::Read(_) => 0,
            DecodeEvent::Decoded(left) => left_after(events.drop_last()) - left,
        }
    }
}

/// No byte is lost, and none is decoded twice.
pub proof fn law_every_byte_is_decoded_once(events: Seq<DecodeEvent>)
    requires
        is_run(events),
    ensures
        total_read(events) == total_taken(events) + left_after(events),
    decreases events.len(),
{
    if events.len() > 0 {
        law_every_byte_is_decoded_once(events.drop_last());
    }
}

/// However a stream is cut into reads, the decoder takes as many bytes of it by its end. Of
/// a stream without bytes it takes none, and is not even called.
pub proof fn law_cuts_do_not_matter(a: Seq<DecodeEvent>, b: Seq<DecodeEvent>)
    requires
        is_run(a),
        is_run(b),
        ended_after(a),
        ended_after(b),
        total_read(a) == total_read(b),
    ensures
        total_taken(a) == total_taken(b),
        total_taken(a) == total_read(a),
        total_read(a) == 0 ==> a == seq![DecodeEvent::Read(0)],
{
    law_every_byte_is_decoded_once(a);
    law_every_byte_is_decoded_once(b);
    if total_read(a) == 0 {
        lemma_nothing_read(a);
    }
}

/// Nothing can be decoded before something is read.
proof fn lemma_nothing_read(events: Seq<DecodeEvent>)
    requires
        is_run(events),
        total_read(events) == 0,
    ensures
        events.len() == 0 || events == seq![DecodeEvent::Read(0)],
    decreases events.len(),
{
    if events.len() > 0 {
        let front = events.drop_last();
        lemma_read_is_not_negative(front);
        lemma_nothing_read(front);
        assert(events =~= front.push(events.last()));
    }
}

proof fn lemma_read_is_not_negative(events: Seq<DecodeEvent>)
    ensures
        total_read(events) >= 0,
    decreases events.len(),
{
    if events.len() > 0 {
        lemma_read_is_not_negative(events.drop_last());
    }
}

/// A read adds its bytes, and is the end of the stream if and only if there are none.
pub proof fn law_reads_are_noted(decoding: &mut ArrowDecoding, count: usize)
    requires
        call_ensures(ArrowDecoding::note_read, (decoding, count), ()),
    ensures
        final(decoding).undecoded() == count,
        final(decoding).has_ended() <==> count == 0,
        total_read(final(decoding).events()) == total_read(old(decoding).events()) + count,
        total_taken(final(decoding).events()) == total_taken(old(decoding).events()),
{
    let events = decoding.events();
    assert(events.push(DecodeEvent::Read(count)).drop_last() =~= events);
}

/// What the decoder leaves is still to be decoded, and the rest it has taken.
pub proof fn law_decodes_are_noted(decoding: &mut ArrowDecoding, left: usize)
    requires
        left_after(decoding.events()) == decoding.undecoded(),
        call_ensures(ArrowDecoding::note_decode, (decoding, left), ()),
    ensures
        final(decoding).undecoded() == left,
        final(decoding).has_ended() == old(decoding).has_ended(),
        total_read(final(decoding).events()) == total_read(old(decoding).events()),
        total_taken(final(decoding).events()) == total_taken(old(decoding).events())
            + old(decoding).undecoded() - left,
{
    let events = decoding.events();
    assert(events.push(DecodeEvent::Decoded(left)).drop_last() =~= events);
}

/// Bytes that are left are decoded, then more are read, until the stream has ended.
pub proof fn law_steps_follow_the_stream(decoding: &ArrowDecoding, step: DecodeStep)
    requires
        call_ensures(ArrowDecoding::step, (decoding,), step),
    ensures
        step is Decode <==> decoding.undecoded() > 0,
        step is Read <==> decoding.undecoded() == 0 && !decoding.has_ended(),
        step is Finish <==> decoding.undecoded() == 0 && decoding.has_ended(),
        total_read(decoding.events()) == total_taken(decoding.events()) + decoding.undecoded(),
{
}

/// At first nothing was read, and the first step is to read.
pub proof fn law_decoding_begins_with_a_read(decoding: ArrowDecoding, step: DecodeStep)
    requires
        call_ensures(ArrowDecoding::new, (), decoding),
        call_ensures(ArrowDecoding::step, (&decoding,), step),
    ensures
        step is Read,
        total_read(decoding.events()) == 0,
{
}

} // verus!
