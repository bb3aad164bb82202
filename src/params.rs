use vstd::prelude::*;

verus! {

/// Why a session could not be configured.
#[derive(Debug, Clone, Copy, PartialEq, Eq, Structural)]
pub enum ParamsInitError {
    MidiDeviceNotFound,
}

impl ParamsInitError {
    /// The message that describes the error.
    pub fn message(&self) -> (r: String)
        ensures
            r@ == "No midi device found"@,
    {
        "No midi device found".to_owned()
    }
}

/// The first input and the first output port, by id; an error when either
/// side has none.
pub fn select_default_ports(in_ports: &Vec<String>, out_ports: &Vec<String>) -> (r: Result<(String, String), ParamsInitError>)
    ensures
        r is Err <==> in_ports@.len() == 0 || out_ports@.len() == 0,
        r is Err ==> r == Err::<(String, String), ParamsInitError>(ParamsInitError::MidiDeviceNotFound),
        r is Ok ==> r->Ok_0.0@ == in_ports@[0]@ && r->Ok_0.1@ == out_ports@[0]@,
{
    if in_ports.len() == 0 || out_ports.len() == 0 {
        return Err(ParamsInitError::MidiDeviceNotFound);
    }
    Ok((in_ports[0].clone(), out_ports[0].clone()))
}

} // verus!
