//! The parameter channel: a one-writer/one-reader mailbox that carries
//! one-shot retune commands from the frame-rate control thread to the
//! sample-rate audio thread. Commands queue in send order; the audio turn
//! drains and applies them all, in that order, before rendering a block.

use vstd::prelude::*;

use crate::oscillator::{sample_value, Oscillator};

verus! {

/// A single-shot mutation request: set the oscillator frequency.
#[derive(Clone, Copy, PartialEq, Eq, Structural, Debug)]
pub struct Command {
    pub frequency: u32,
}

/// The pending side of the channel, owned by the audio thread's turn.
pub struct CommandQueue {
    pending: Vec<Command>,
}

impl CommandQueue {
    /// The commands sent but not yet applied, oldest first.
    pub closed spec fn pending_view(self) -> Seq<Command> {
        self.pending@
    }

    pub fn new() -> (queue: CommandQueue)
        ensures
            queue.pending_view() == Seq::<Command>::empty(),
    {
        CommandQueue { pending: Vec::new() }
    }

    /// Enqueues one command behind everything already pending; never
    /// blocks and never drops a command.
    pub fn send(&mut self, cmd: Command)
        ensures
            final(self).pending_view() == old(self).pending_view().push(cmd),
    {
        self.pending.push(cmd);
    }

    /// Applies every pending command to the oscillator in FIFO order and
    /// empties the queue. Each command overwrites the frequency, so the
    /// last sent wins; with nothing pending the previous frequency is
    /// reused unchanged. The phase is never touched from this side.
    pub fn drain_into(&mut self, osc: &mut Oscillator)
        ensures
            final(self).pending_view() == Seq::<Command>::empty(),
            final(osc).phase == old(osc).phase,
            final(osc).sample_rate == old(osc).sample_rate,
            old(self).pending_view().len() == 0 ==> *final(osc) == *old(osc),
            old(self).pending_view().len() > 0 ==> final(osc).frequency == old(
                self,
            ).pending_view().last().frequency,
    {
        let mut i: usize = 0;
        while i < self.pending.len()
            invariant
                i <= self.pending@.len(),
                self == old(self),
                osc.phase == old(osc).phase,
                osc.sample_rate == old(osc).sample_rate,
                i == 0 ==> osc == old(osc),
                i > 0 ==> osc.frequency == self.pending@[i - 1].frequency,
            decreases self.pending@.len() - i,
        {
            let f = self.pending[i].frequency;
            osc.set_frequency(f);
            i = i + 1;
        }
        self.pending = Vec::new();
    }
}

/// One audio-thread turn, exactly as the render callback runs it: drain
/// all pending retunes first, then synthesize the block with whatever
/// frequency is now set — the last command sent, or the previous
/// frequency if none was pending.
pub fn audio_turn(queue: &mut CommandQueue, osc: &mut Oscillator, len: usize) -> (out: Vec<i32>)
    requires
        old(osc).wf(),
    ensures
        final(queue).pending_view() == Seq::<Command>::empty(),
        final(osc).wf(),
        final(osc).sample_rate == old(osc).sample_rate,
        out@.len() == len,
        ({
            let f = if old(queue).pending_view().len() == 0 {
                old(osc).frequency
            } else {
                old(queue).pending_view().last().frequency
            };
            &&& final(osc).frequency == f
            &&& forall|k: int|
                0 <= k < len ==> out@[k] == sample_value(
                    old(osc).phase + k * f,
                    old(osc).sample_rate as int,
                )
        }),
{
    queue.drain_into(osc);
    osc.render_block(len)
}

} // verus!
