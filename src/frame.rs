use vstd::prelude::*;

verus! {

/// Capacity of one frame, in bytes.
pub const MAX_MIDI_MSG_SIZE: usize = 16;

/// A raw MIDI frame: its bytes and a time offset within the processing block.
#[derive(Debug)]
pub struct RawFrame {
    pub time: u32,
    pub data: Vec<u8>,
}

impl View for RawFrame {
    type V = (u32, Seq<u8>);

    open spec fn view(&self) -> (u32, Seq<u8>) {
        (self.time, self.data@)
    }
}

/// Why a frame could not be built.
#[derive(Debug, Clone, Copy, PartialEq, Eq, Structural)]
pub enum EncodeError {
    /// The payload does not fit in one frame.
    CapacityExceeded,
}

/// `payload` followed by zeros up to the frame capacity.
pub open spec fn padded(payload: Seq<u8>) -> Seq<u8> {
    payload + Seq::new((MAX_MIDI_MSG_SIZE - payload.len()) as nat, |i: int| 0u8)
}

/// A copy of `f`.
pub fn copy_frame(f: &RawFrame) -> (r: RawFrame)
    ensures
        r@ == f@,
{
    let data = f.data.clone();
    assert(data@ =~= f.data@);
    RawFrame { time: f.time, data }
}

/// Builds a frame from `mesg`, zero-padded to the frame capacity; a payload
/// longer than the capacity is refused.
pub fn make_raw_midi_mesg(time: u32, mesg: &[u8]) -> (r: Result<RawFrame, EncodeError>)
    ensures
        mesg@.len() > MAX_MIDI_MSG_SIZE <==> r is Err,
        r is Err ==> r == Err::<RawFrame, EncodeError>(EncodeError::CapacityExceeded),
        r is Ok ==> r->Ok_0@ == (time, padded(mesg@)),
{
    if mesg.len() > MAX_MIDI_MSG_SIZE {
        return Err(EncodeError::CapacityExceeded);
    }
    let mut data: Vec<u8> = Vec::new();
    let mut i: usize = 0;
    while i < MAX_MIDI_MSG_SIZE
        invariant
            mesg@.len() <= MAX_MIDI_MSG_SIZE,
            i <= MAX_MIDI_MSG_SIZE,
            data@.len() == i,
            forall|j: int| 0 <= j < i ==> data@[j] == padded(mesg@)[j],
        decreases MAX_MIDI_MSG_SIZE - i,
    {
        if i < mesg.len() {
            data.push(mesg[i]);
        } else {
            data.push(0);
        }
        i += 1;
    }
    assert(data@ =~= padded(mesg@));
    Ok(RawFrame { time, data })
}

} // verus!
