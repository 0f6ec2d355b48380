//! Sending a frame through the transmit queue of a PIO state machine.

use vstd::prelude::*;

use crate::color::{grb_word_holds_color, grb_word_injective, Rgb8};

verus! {

/// Address of the registers of the PIO block.
pub const PIO0_BASE: u32 = 0x5020_0000;

/// Address of the register that says which queues are full.
pub const PIO0_FSTAT: u32 = 0x5020_0004;

/// State machine number `sm` has a bit in the queue status.
pub open spec fn valid_sm(sm: int) -> bool {
    0 <= sm < 16
}

/// Address of the transmit queue of state machine number `sm`.
pub fn txf_addr(sm: usize) -> (addr: u32)
    requires
        valid_sm(sm as int),
    ensures
        addr == PIO0_BASE + 0x10 + 4 * sm,
{
    PIO0_BASE + (0x10 + sm as u32 * 4)
}

/// The queue status `fstat` says that the transmit queue of state machine number `sm` is
/// full.
pub open spec fn tx_full_spec(fstat: u32, sm: usize) -> bool {
    (fstat >> ((16 + sm) as u32)) & 1 == 1
}

/// Whether the queue status says that the transmit queue is full.
pub fn tx_full(fstat: u32, sm: usize) -> (full: bool)
    requires
        valid_sm(sm as int),
    ensures
        full == tx_full_spec(fstat, sm),
{
    let n: u32 = 16 + sm as u32;
    let bit: u32 = 1u32 << n;
    assert((fstat & bit != 0) == ((fstat >> n) & 1 == 1)) by (bit_vector)
        requires
            n < 32,
            bit == 1u32 << n,
    ;
    fstat & bit != 0
}

/// The words that a frame puts into the queue.
pub open spec fn words_spec(colors: Seq<Rgb8>) -> Seq<u32> {
    colors.map_values(|c: Rgb8| c.spec_grb_word() as u32)
}

/// What to do after a look at the queue status.
#[derive(Clone, Copy, Debug, PartialEq, Eq, Structural)]
pub enum FifoStep {
    /// The queue is full: look again.
    Wait,
    /// Put `word` into the queue at `addr`.
    Send { addr: u32, word: u32 },
    /// The whole frame is in the queue.
    Done,
}

/// A frame on its way into the queue.
pub struct Transfer {
    sm: usize,
    words: Vec<u32>,
    next: usize,
}

impl Transfer {
    pub closed spec fn wf(&self) -> bool {
        &&& valid_sm(self.sm as int)
        &&& self.next <= self.words@.len()
    }

    /// The state machine whose queue is used.
    pub closed spec fn state_machine(&self) -> usize {
        self.sm
    }

    /// All the words of the frame.
    pub closed spec fn words(&self) -> Seq<u32> {
        self.words@
    }

    /// How many words are in the queue already.
    pub closed spec fn sent(&self) -> int {
        self.next as int
    }

    /// Starts to send a frame through state machine number `sm`.
    pub fn new(sm: usize, colors: &[Rgb8]) -> (t: Transfer)
        requires
            valid_sm(sm as int),
        ensures
            t.wf(),
            t.state_machine() == sm,
            t.words() == words_spec(colors@),
            t.sent() == 0,
    {
        let mut words: Vec<u32> = Vec::new();
        let mut i: usize = 0;
        while i < colors.len()
            invariant
                i <= colors@.len(),
                words@ == words_spec(colors@.take(i as int)),
            decreases colors@.len() - i,
        {
            words.push(colors[i].grb_word());
            assert(words@ =~= words_spec(colors@.take(i + 1)));
            i = i + 1;
        }
        assert(colors@.take(colors@.len() as int) =~= colors@);
        Transfer { sm, words, next: 0 }
    }

    /// Whether the whole frame is in the queue, so that there is no more need to look at it.
    pub fn is_done(&self) -> (r: bool)
        requires
            self.wf(),
        ensures
            r == (self.sent() == self.words().len()),
    {
        self.next == self.words.len()
    }

    /// Decides what to do, given the queue status.
    pub fn step(&mut self, fstat: u32) -> (step: FifoStep)
        requires
            old(self).wf(),
        ensures
            final(self).wf(),
            final(self).state_machine() == old(self).state_machine(),
            final(self).words() == old(self).words(),
            0 <= old(self).sent() <= old(self).words().len(),
            step == step_spec(old(self).state_machine(), old(self).words(), old(self).sent(), fstat),
            final(self).sent() == old(self).sent() + (if step is Send {
                1int
            } else {
                0int
            }),
    {
        if self.next == self.words.len() {
            return FifoStep::Done;
        }
        if tx_full(fstat, self.sm) {
            return FifoStep::Wait;
        }
        let word: u32 = self.words[self.next];
        self.next = self.next + 1;
        FifoStep::Send { addr: txf_addr(self.sm), word }
    }
}

/// What to do when `sent` of the words are in the queue of state machine number `sm`, and
/// the queue status is `fstat`.
pub open spec fn step_spec(sm: usize, words: Seq<u32>, sent: int, fstat: u32) -> FifoStep {
    if sent == words.len() {
        FifoStep::Done
    } else if tx_full_spec(fstat, sm) {
        FifoStep::Wait
    } else {
        FifoStep::Send { addr: (PIO0_BASE + 0x10 + 4 * sm) as u32, word: words[sent] }
    }
}

/// How many words are in the queue after a look at each of the statuses.
pub open spec fn sent_after(sm: usize, words: Seq<u32>, statuses: Seq<u32>) -> int
    decreases statuses.len(),
{
    if statuses.len() == 0 {
        0
    } else {
        let sent = sent_after(sm, words, statuses.drop_last());
        if step_spec(sm, words, sent, statuses.last()) is Send {
            sent + 1
        } else {
            sent
        }
    }
}

/// The words that were put into the queue, over a look at each of the statuses.
pub open spec fn sent_words(sm: usize, words: Seq<u32>, statuses: Seq<u32>) -> Seq<u32>
    decreases statuses.len(),
{
    if statuses.len() == 0 {
        Seq::empty()
    } else {
        let before = sent_words(sm, words, statuses.drop_last());
        match step_spec(
            sm,
            words,
            sent_after(sm, words, statuses.drop_last()),
            statuses.last(),
        ) {
            FifoStep::Send { addr, word } => before.push(word),
            _ => before,
        }
    }
}

/// How many of the statuses show room in the queue.
pub open spec fn free_looks(sm: usize, statuses: Seq<u32>) -> int
    decreases statuses.len(),
{
    if statuses.len() == 0 {
        0
    } else {
        free_looks(sm, statuses.drop_last()) + (if tx_full_spec(statuses.last(), sm) {
            0int
        } else {
            1int
        })
    }
}

/// However the queue fills and drains meanwhile, the words go into it in their order, none
/// twice and none left out; one goes in for each look that finds room, until all are in.
pub proof fn words_sent_in_order(sm: usize, words: Seq<u32>, statuses: Seq<u32>)
    ensures
        ({
            let free = free_looks(sm, statuses);
            let n = if free < words.len() {
                free
            } else {
                words.len() as int
            };
            &&& 0 <= n
            &&& sent_after(sm, words, statuses) == n
            &&& sent_words(sm, words, statuses) == words.take(n)
        }),
    decreases statuses.len(),
{
    if statuses.len() == 0 {
        assert(words.take(0) =~= Seq::<u32>::empty());
    } else {
        words_sent_in_order(sm, words, statuses.drop_last());
        let sent = sent_after(sm, words, statuses.drop_last());
        if sent < words.len() {
            assert(words.take(sent).push(words[sent]) =~= words.take(sent + 1));
        }
    }
}

/// A word goes into the queue only directly after a look that finds room, and a full queue
/// loses none: the same word is still the next one.
pub proof fn words_wait_for_room(sm: usize, words: Seq<u32>, statuses: Seq<u32>, fstat: u32)
    ensures
        sent_after(sm, words, statuses.push(fstat)) > sent_after(sm, words, statuses)
            ==> !tx_full_spec(fstat, sm),
        tx_full_spec(fstat, sm) ==> sent_after(sm, words, statuses.push(fstat)) == sent_after(
            sm,
            words,
            statuses,
        ) && sent_words(sm, words, statuses.push(fstat)) == sent_words(sm, words, statuses),
{
    assert(statuses.push(fstat).drop_last() =~= statuses);
}

/// Two frames, one after the other, put the same words into the queue as one frame that is
/// made of both.
pub proof fn words_of_joined_frames(a: Seq<Rgb8>, b: Seq<Rgb8>)
    ensures
        words_spec(a + b) == words_spec(a) + words_spec(b),
{
    assert(words_spec(a + b) =~= words_spec(a) + words_spec(b));
}

/// Different frames put different words into the queue.
pub proof fn words_injective(a: Seq<Rgb8>, b: Seq<Rgb8>)
    requires
        words_spec(a) == words_spec(b),
    ensures
        a == b,
{
    assert(words_spec(a).len() == a.len() && words_spec(b).len() == b.len());
    assert forall|i: int| 0 <= i < a.len() implies a[i] == b[i] by {
        grb_word_holds_color(a[i]);
        grb_word_holds_color(b[i]);
        assert(words_spec(a)[i] == a[i].spec_grb_word());
        assert(words_spec(b)[i] == b[i].spec_grb_word());
        grb_word_injective(a[i], b[i]);
    }
    assert(a =~= b);
}

/// The words of a frame: one for each colour, in their order, with green in the highest byte,
/// then red, then blue, then zero.
pub proof fn each_color_has_its_word(colors: Seq<Rgb8>, i: int)
    requires
        0 <= i < colors.len(),
    ensures
        words_spec(colors).len() == colors.len(),
        words_spec(colors)[i] >> 24 == colors[i].g,
        (words_spec(colors)[i] >> 16) & 0xff == colors[i].r,
        (words_spec(colors)[i] >> 8) & 0xff == colors[i].b,
        words_spec(colors)[i] & 0xff == 0,
{
    grb_word_holds_color(colors[i]);
}

/// What a look at the queue leads to, told by the status bit: bit 16 belongs to state machine
/// number 0, bit 17 to number 1, and so on. While the bit is set nothing is sent; else the next
/// word goes to the machine's own queue. Once all the words are sent the transfer is done.
pub proof fn status_bit_decides(sm: usize, words: Seq<u32>, sent: int, fstat: u32)
    requires
        sm < 16,
        0 <= sent <= words.len(),
    ensures
        valid_sm(sm as int),
        ({
            let step = step_spec(sm, words, sent, fstat);
            let bit = 1u32 << ((16 + sm) as u32);
            &&& step is Done <==> sent == words.len()
            &&& sent < words.len() ==> if fstat & bit != 0 {
                step is Wait
            } else {
                &&& step matches FifoStep::Send { addr, word }
                &&& addr == 0x5020_0010 + 4 * sm
                &&& word == words[sent]
            }
        }),
{
    let n = (16 + sm) as u32;
    let bit = 1u32 << n;
    assert((fstat & bit != 0) == ((fstat >> n) & 1 == 1)) by (bit_vector)
        requires
            n < 32,
            bit == 1u32 << n,
    ;
}

} // verus!
