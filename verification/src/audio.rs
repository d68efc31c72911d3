//! The queue between the machine, which makes sound samples, and the sound card,
//! which plays them.

use std::collections::VecDeque;

use vstd::prelude::*;

verus! {

/// How many samples may wait before the oldest has to make room: about 0.2
/// seconds at 44.1kHz.
pub const MAX_WAITING: usize = 8820;

/// Samples that wait to be played, the oldest first. That sequence is the view.
pub struct SampleQueue<T> {
    waiting: VecDeque<T>,
}

impl<T> View for SampleQueue<T> {
    type V = Seq<T>;

    closed spec fn view(&self) -> Seq<T> {
        self.waiting@
    }
}

/// The queue once `sample` has come.
pub open spec fn queued<T>(waiting: Seq<T>, sample: T) -> Seq<T> {
    if waiting.len() > MAX_WAITING {
        waiting.drop_first().push(sample)
    } else {
        waiting.push(sample)
    }
}

/// The samples to play where `n` are wanted: those that wait, then silence.
pub open spec fn played<T>(waiting: Seq<T>, n: nat, silence: T) -> Seq<T> {
    Seq::new(
        n,
        |i: int|
            if i < waiting.len() {
                waiting[i]
            } else {
                silence
            },
    )
}

/// What still waits once `n` samples have been played.
pub open spec fn left<T>(waiting: Seq<T>, n: nat) -> Seq<T> {
    if n < waiting.len() {
        waiting.skip(n as int)
    } else {
        Seq::empty()
    }
}

impl<T: Copy> SampleQueue<T> {
    /// A queue with nothing in it.
    pub fn new() -> (queue: Self)
        ensures
            queue@ == Seq::<T>::empty(),
    {
        SampleQueue { waiting: VecDeque::new() }
    }

    /// Keep buffer size reasonable to prevent latency: where too many wait, the
    /// oldest sample is removed to make room.
    pub fn audio_sample(&mut self, sample: T)
        ensures
            final(self)@ == queued(old(self)@, sample),
    {
        if self.waiting.len() > MAX_WAITING {
            let _ = self.waiting.pop_front();
        }
        self.waiting.push_back(sample);
        assert(self@ =~= queued(old(self)@, sample));
    }

    /// Fills `out` with the next samples, and with silence where there are none.
    pub fn callback(&mut self, out: &mut [T], silence: T)
        ensures
            final(out)@ == played(old(self)@, old(out)@.len(), silence),
            final(self)@ == left(old(self)@, old(out)@.len()),
    {
        let ghost before = self@;
        let n: usize = out.len();
        for i in 0..n
            invariant
                n == out@.len(),
                forall|j: int| 0 <= j < i ==> out@[j] == played(before, n as nat, silence)[j],
                self@ == left(before, i as nat),
        {
            let next = self.waiting.pop_front();
            out[i] = match next {
                Some(sample) => sample,
                None => silence,
            };
            assert(self@ =~= left(before, (i + 1) as nat));
        }
        assert(out@ =~= played(before, n as nat, silence));
    }
}

/// However many samples come and go, no more wait than one above the limit.
pub proof fn queue_stays_short<T>(waiting: Seq<T>, sample: T, n: nat)
    requires
        waiting.len() <= MAX_WAITING + 1,
    ensures
        queued(waiting, sample).len() <= MAX_WAITING + 1,
        left(waiting, n).len() <= MAX_WAITING + 1,
{
}

/// Samples are played in the order in which they came, none twice and none left
/// out: playing `n` and then `m` of those that wait plays the first `n + m`.
pub proof fn samples_are_played_in_order<T>(waiting: Seq<T>, n: nat, m: nat, silence: T)
    ensures
        played(waiting, n, silence) + played(left(waiting, n), m, silence) == played(
            waiting,
            n + m,
            silence,
        ),
        left(left(waiting, n), m) == left(waiting, n + m),
{
    assert(played(waiting, n, silence) + played(left(waiting, n), m, silence) =~= played(
        waiting,
        n + m,
        silence,
    ));
    assert(left(left(waiting, n), m) =~= left(waiting, n + m));
}

/// Up to 8820 samples wait, and a further one joins at the end; above that the
/// oldest leaves and all others move up by one.
pub proof fn oldest_samples_make_room<T>(waiting: Seq<T>, sample: T, i: int)
    requires
        0 <= i,
    ensures
        queued(waiting, sample).last() == sample,
        waiting.len() <= 8820 ==> queued(waiting, sample).len() == waiting.len() + 1,
        waiting.len() <= 8820 && i < waiting.len() ==> queued(waiting, sample)[i] == waiting[i],
        waiting.len() > 8820 ==> queued(waiting, sample).len() == waiting.len(),
        waiting.len() > 8820 && i + 1 < waiting.len() ==> queued(waiting, sample)[i] == waiting[i
            + 1],
{
}

/// Each sample that waits is either played, at its place, or still waits, as many
/// places further up as were played; what cannot be filled is silence.
pub proof fn samples_are_played_or_wait<T>(waiting: Seq<T>, n: nat, silence: T, i: int)
    requires
        0 <= i,
    ensures
        played(waiting, n, silence).len() == n,
        i < n && i < waiting.len() ==> played(waiting, n, silence)[i] == waiting[i],
        i < n && i >= waiting.len() ==> played(waiting, n, silence)[i] == silence,
        left(waiting, n).len() == (if n < waiting.len() {
            waiting.len() - n
        } else {
            0
        }),
        n + i < waiting.len() ==> left(waiting, n)[i] == waiting[n + i],
{
}

} // verus!
