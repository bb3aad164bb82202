use vstd::prelude::*;
use crate::decode::{decode_batch, frame_bytes, process_midi_mesg, DecodeState, MidiProcess, PairingState};
use crate::encode::{connect_sequence, frames_view, initialize_mc_device};
use crate::frame::{copy_frame, RawFrame};
use crate::trigger::{default_triggers, mackie_rules, TriggerTable};

verus! {

/// The per-block state of a session with a control surface: the frames that
/// wait to be sent, the decoder's pairing state and the trigger table.
pub struct MidiProcessor {
    pub debug: bool,
    /// Frames queued for the next block, in order.
    pub to_send: Vec<RawFrame>,
    pub state: PairingState,
    pub table: TriggerTable,
    /// A panic frame ended the session.
    pub halted: bool,
}

/// What one processing block sends and decodes.
pub struct ProcessOutput {
    /// Frames to push to the output port, in order.
    pub outputs: Vec<RawFrame>,
    /// The decoded input batch; `None` when there was no input to decode.
    pub decoded: Option<MidiProcess>,
    /// The session is over.
    pub shutdown: bool,
}

/// The sent frames of a decoded batch, stamped with `time`.
pub open spec fn stamped(sent: Seq<Seq<u8>>, time: u32) -> Seq<(u32, Seq<u8>)> {
    Seq::new(sent.len(), |k: int| (time, sent[k]))
}

/// What a live block sends after the queued frames: the trigger frames, then,
/// unless the batch halted, the input frames passed through.
pub open spec fn block_outputs(d: DecodeState, inputs: Seq<RawFrame>, time: u32) -> Seq<(u32, Seq<u8>)> {
    if d.halted {
        stamped(d.sent, time)
    } else {
        stamped(d.sent, time) + frames_view(inputs)
    }
}

/// Appends a copy of each frame of `src` to `out`.
fn extend_copies(out: &mut Vec<RawFrame>, src: &Vec<RawFrame>)
    ensures
        frames_view(final(out)@) == frames_view(old(out)@) + frames_view(src@),
{
    let ghost start = frames_view(out@);
    let mut i: usize = 0;
    while i < src.len()
        invariant
            i <= src@.len(),
            start == frames_view(old(out)@),
            frames_view(out@) =~= start + frames_view(src@.subrange(0, i as int)),
        decreases src@.len() - i,
    {
        let ghost before = out@;
        out.push(copy_frame(&src[i]));
        i += 1;
        assert(frames_view(out@) =~= frames_view(before) + seq![src@[i - 1]@]);
        assert(frames_view(src@.subrange(0, i as int)) =~= frames_view(src@.subrange(0, i - 1)).push(src@[i - 1]@));
    }
    assert(src@.subrange(0, i as int) =~= src@);
}

impl MidiProcessor {
    pub open spec fn wf(&self) -> bool {
        self.table.wf()
    }

    /// A session with nothing queued, no pair pending and the Mackie Control
    /// trigger table.
    pub fn new(debug: bool) -> (r: MidiProcessor)
        ensures
            r.wf(),
            r.debug == debug,
            r.to_send@.len() == 0,
            r.state.pending is None,
            r.table@ == mackie_rules(),
            !r.halted,
    {
        MidiProcessor { debug, to_send: Vec::new(), state: PairingState::new(), table: default_triggers(), halted: false }
    }

    /// Queues the connect sequence, to go out before anything else.
    pub fn init(&mut self)
        ensures
            frames_view(final(self).to_send@) == frames_view(old(self).to_send@) + connect_sequence(),
            final(self).state == old(self).state,
            final(self).table@ == old(self).table@,
            final(self).halted == old(self).halted,
            final(self).debug == old(self).debug,
    {
        let init_frames = initialize_mc_device();
        extend_copies(&mut self.to_send, &init_frames);
    }

    /// One processing block. Once the session has halted, nothing is sent.
    /// Otherwise the queued frames go first; then, if `inputs` is not empty,
    /// the batch is decoded, the frames that its triggers send follow, stamped
    /// with `time`, and the input frames are passed through unless a panic
    /// frame halted the batch, which ends the session.
    pub fn process(&mut self, inputs: &Vec<RawFrame>, time: u32) -> (r: ProcessOutput)
        requires
            old(self).wf(),
        ensures
            final(self).wf(),
            final(self).table@ == old(self).table@,
            final(self).debug == old(self).debug,
            old(self).halted ==> {
                &&& r.outputs@.len() == 0
                &&& r.decoded is None
                &&& r.shutdown
                &&& frames_view(final(self).to_send@) == frames_view(old(self).to_send@)
                &&& final(self).state == old(self).state
                &&& final(self).halted
            },
            !old(self).halted && inputs@.len() == 0 ==> {
                &&& frames_view(r.outputs@) == frames_view(old(self).to_send@)
                &&& r.decoded is None
                &&& !r.shutdown
                &&& final(self).to_send@.len() == 0
                &&& final(self).state == old(self).state
                &&& !final(self).halted
            },
            !old(self).halted && inputs@.len() > 0 ==> ({
                let d = decode_batch(old(self).table@, old(self).state.pending, frame_bytes(inputs@));
                &&& frames_view(r.outputs@) == frames_view(old(self).to_send@) + block_outputs(d, inputs@, time)
                &&& r.decoded is Some
                &&& r.decoded->Some_0.holds(d, time)
                &&& r.shutdown == d.halted
                &&& final(self).to_send@.len() == 0
                &&& final(self).state.pending == d.pending
                &&& final(self).halted == d.halted
            }),
    {
        let mut outputs: Vec<RawFrame> = Vec::new();
        if self.halted {
            return ProcessOutput { outputs, decoded: None, shutdown: true };
        }
        let ghost queued = frames_view(self.to_send@);
        outputs.append(&mut self.to_send);
        assert(frames_view(outputs@) =~= queued);
        if inputs.len() == 0 {
            return ProcessOutput { outputs, decoded: None, shutdown: false };
        }
        let decoded = process_midi_mesg(&mut self.state, &self.table, inputs, time);
        extend_copies(&mut outputs, &decoded.to_send);
        assert(frames_view(decoded.to_send@) =~= stamped(
            decode_batch(old(self).table@, old(self).state.pending, frame_bytes(inputs@)).sent,
            time,
        ));
        let shutdown = decoded.shutdown;
        if shutdown {
            self.halted = true;
        } else {
            extend_copies(&mut outputs, inputs);
        }
        ProcessOutput { outputs, decoded: Some(decoded), shutdown }
    }
}

} // verus!
