//! Reassembly of dynamic virtual channel messages sent in fragments.
use vstd::prelude::*;

verus! {

/// Accumulates the fragments of one dynamic channel message.
///
/// Idle when `total_size == 0` and nothing is buffered; reassembling when
/// fewer than `total_size` bytes are buffered.
#[derive(Debug, PartialEq)]
pub struct CompleteData {
    total_size: usize,
    data: Vec<u8>,
}

impl CompleteData {
    pub closed spec fn total(&self) -> nat {
        self.total_size as nat
    }

    /// The bytes buffered so far.
    pub closed spec fn buffered(&self) -> Seq<u8> {
        self.data@
    }

    pub open spec fn is_idle(&self) -> bool {
        self.total() == 0 && self.buffered().len() == 0
    }

    /// Either idle, or still waiting for fragments.
    pub open spec fn wf(&self) -> bool {
        self.is_idle() || self.buffered().len() < self.total()
    }

    pub fn new() -> (r: Self)
        ensures
            r.is_idle(),
            r.wf(),
    {
        CompleteData { total_size: 0, data: Vec::new() }
    }

    pub fn total_size(&self) -> (r: usize)
        ensures
            r == self.total(),
    {
        self.total_size
    }

    pub fn buffered_len(&self) -> (r: usize)
        ensures
            r == self.buffered().len(),
    {
        self.data.len()
    }

    /// Starts a message of `total_data_size` bytes whose first fragment is `data`.
    ///
    /// A message still being reassembled is discarded. A fragment that holds the
    /// whole message is returned at once; one longer than the announced total
    /// is a framing error and is dropped.
    pub fn process_data_first_pdu(&mut self, total_data_size: usize, data: Vec<u8>) -> (r: Option<
        Vec<u8>,
    >)
        ensures
            data@.len() == total_data_size ==> r.is_some() && r.unwrap()@ == data@
                && final(self).is_idle(),
            data@.len() < total_data_size ==> r.is_none() && final(self).total()
                == total_data_size && final(self).buffered() == data@,
            data@.len() > total_data_size ==> r.is_none() && final(self).is_idle(),
            final(self).wf(),
    {
        if self.total_size != 0 || self.data.len() != 0 {
            // an unfinished message is dropped
            self.data.clear();
            self.total_size = 0;
        }
        if total_data_size == data.len() {
            Some(data)
        } else if data.len() > total_data_size {
            // more bytes than announced
            None
        } else {
            self.total_size = total_data_size;
            self.data = data;
            None
        }
    }

    /// Takes a Data fragment. Outside a fragmented message the fragment is a
    /// whole message; the last fragment completes the message; a fragment that
    /// overruns the announced size drops the message.
    pub fn process_data_pdu(&mut self, data: Vec<u8>) -> (r: Option<Vec<u8>>)
        ensures
            old(self).is_idle() ==> r.is_some() && r.unwrap()@ == data@ && *final(self)
                == *old(self),
            !old(self).is_idle() && old(self).buffered().len() + data@.len() < old(self).total()
                ==> r.is_none() && final(self).total() == old(self).total()
                && final(self).buffered() == old(self).buffered() + data@,
            !old(self).is_idle() && old(self).buffered().len() + data@.len() == old(self).total()
                ==> r.is_some() && r.unwrap()@ == old(self).buffered() + data@
                && final(self).is_idle(),
            !old(self).is_idle() && old(self).buffered().len() + data@.len() > old(self).total()
                ==> r.is_none() && final(self).is_idle(),
            final(self).wf(),
    {
        let mut data = data;
        if self.total_size == 0 && self.data.len() == 0 {
            // not fragmented
            return Some(data);
        }
        let have = self.data.len();
        if have > self.total_size || data.len() > self.total_size - have {
            // more bytes than announced
            self.total_size = 0;
            self.data.clear();
            None
        } else if data.len() < self.total_size - have {
            self.data.append(&mut data);
            None
        } else {
            self.total_size = 0;
            self.data.append(&mut data);
            let mut whole: Vec<u8> = Vec::new();
            std::mem::swap(&mut whole, &mut self.data);
            Some(whole)
        }
    }
}

} // verus!
