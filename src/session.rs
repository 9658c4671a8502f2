//! One pass of the active-stage loop: a complete PDU in, the bytes to send
//! back and whether the session goes on, out.
use vstd::prelude::*;
use crate::error::RdpError;
use crate::fast_path::{fast_path_processed, spec_updates, FastPathProcessor};
use crate::framing::{frame_payload, parse_frame, spec_parse_frame, Action};
use crate::mcs::{x224_data_header, MCS_DISCONNECT_PROVIDER_ULTIMATUM};
use crate::x224::{x224_processed, Processor};

verus! {

/// What the loop does after a PDU.
#[derive(Debug, PartialEq, Eq)]
pub enum Step {
    /// Write these bytes (if any), flush, and read the next PDU.
    Continue(Vec<u8>),
    /// The server ended the session, or spoke on a channel the client does
    /// not serve: leave the loop cleanly.
    Exit,
}

/// What the loop does when reading a PDU failed.
#[derive(Debug, PartialEq, Eq, Clone, Copy)]
pub enum ReadFailure {
    /// A fast-path packet with a null length: drop it and read on.
    Skip,
    /// Any other failure ends the session with that error.
    Fatal,
}

/// The decision on a failed read: a null-length fast-path packet is dropped.
pub fn read_failure(e: &RdpError) -> (r: ReadFailure)
    ensures
        (r == ReadFailure::Skip) <==> (*e is NullLengthFastPath),
{
    match e {
        RdpError::NullLengthFastPath { .. } => ReadFailure::Skip,
        _ => ReadFailure::Fatal,
    }
}

/// The step owed for what the slow-path processor returned: its replies,
/// a clean exit on a disconnection or an unexpected channel, or its error.
pub open spec fn step_of(r0: Result<Vec<u8>, RdpError>, r: Result<Step, RdpError>) -> bool {
    match r0 {
        Ok(v) => r matches Ok(Step::Continue(out)) && out@ == v@,
        Err(RdpError::UnexpectedDisconnection(_)) => r == Ok::<Step, RdpError>(Step::Exit),
        Err(RdpError::UnexpectedChannel(_)) => r == Ok::<Step, RdpError>(Step::Exit),
        Err(e) => r == Err::<Step, RdpError>(e),
    }
}

/// The state of the active stage: the slow-path and fast-path processors.
pub struct ActiveStage {
    pub x224: Processor,
    pub fast_path: FastPathProcessor,
}

impl ActiveStage {
    pub open spec fn wf(&self) -> bool {
        self.fast_path.wf()
    }

    pub fn new(x224: Processor, fast_path: FastPathProcessor) -> (r: Self)
        requires
            fast_path.wf(),
        ensures
            r.wf(),
    {
        ActiveStage { x224, fast_path }
    }

    /// Handles one complete framed PDU. Slow-path PDUs go to the X.224
    /// processor, whose disconnection and unexpected-channel errors end the
    /// session cleanly; fast-path PDUs go to the fast-path processor.
    pub fn process_pdu(&mut self, frame: &[u8]) -> (r: Result<Step, RdpError>)
        requires
            old(self).wf(),
        ensures
            final(self).wf(),
            spec_parse_frame(frame@) is Err ==> r is Err,
            (spec_parse_frame(frame@) matches Ok((Action::X224, p)) && p.len() >= 5 && p.subrange(0, 3)
                == x224_data_header() && p[3] / 4 == MCS_DISCONNECT_PROVIDER_ULTIMATUM) ==> r
                == Ok::<Step, RdpError>(Step::Exit),
            spec_parse_frame(frame@) matches Ok((Action::FastPath, _)) && spec_updates(frame_payload(frame@), 0)
                is None ==> r == Err::<Step, RdpError>(RdpError::FastPathError),
            (spec_parse_frame(frame@) matches Ok((Action::FastPath, _))) ==> (r matches Ok(Step::Continue(out))
                ==> out@.len() == 0),
            spec_parse_frame(frame@) is Err ==> *final(self) == *old(self),
            spec_parse_frame(frame@) matches Ok((Action::X224, _)) ==> final(self).fast_path == old(self).fast_path
                && exists|r0: Result<Vec<u8>, RdpError>|
                #[trigger] x224_processed(old(self).x224, final(self).x224, frame_payload(frame@), r0) && step_of(r0, r),
            spec_parse_frame(frame@) matches Ok((Action::FastPath, _)) ==> final(self).x224 == old(self).x224
                && exists|r0: Result<(), RdpError>|
                #[trigger] fast_path_processed(old(self).fast_path, final(self).fast_path, frame_payload(frame@), r0) && (
                match r0 {
                    Ok(()) => r matches Ok(Step::Continue(out)) && out@.len() == 0,
                    Err(e) => r == Err::<Step, RdpError>(e),
                }),
    {
        let (action, payload) = parse_frame(frame)?;
        match action {
            Action::X224 => {
                let r0 = self.x224.process(payload.as_slice());
                let ghost g = r0;
                let r = match r0 {
                    Ok(out) => Ok(Step::Continue(out)),
                    Err(RdpError::UnexpectedDisconnection(_)) => Ok(Step::Exit),
                    Err(RdpError::UnexpectedChannel(_)) => Ok(Step::Exit),
                    Err(e) => Err(e),
                };
                assert(step_of(g, r));
                r
            },
            Action::FastPath => {
                let ghost ofp = self.fast_path;
                let r0 = self.fast_path.process(payload.as_slice());
                let ghost g = r0;
                let r = match r0 {
                    Ok(()) => Ok(Step::Continue(Vec::new())),
                    Err(e) => Err(e),
                };
                assert(fast_path_processed(ofp, self.fast_path, payload@, g));
                assert(payload@ == frame_payload(frame@));
                r
            },
        }
    }
}

} // verus!
