use vstd::prelude::*;
use crate::bytes::le_bytes;
use crate::bytes::u64_to_le_bytes;

verus! {

/// How a finished debug message is to be shown.
#[derive(Clone, Copy, Debug, PartialEq, Eq, Structural)]
pub enum DebugType {
    String,
    Bytes,
}

impl DebugType {
    /// The debug type that a guest names by number.
    pub open spec fn from_code(code: u64) -> DebugType {
        if code == 0 {
            DebugType::String
        } else {
            DebugType::Bytes
        }
    }
}

impl Default for DebugType {
    fn default() -> (r: Self)
        ensures
            r == DebugType::String,
    {
        DebugType::String
    }
}

/// Collects a debug message that a guest sends eight bytes at a time.
pub struct DebugContext {
    pub debug_type: DebugType,
    pub data: Vec<u8>,
    pub length: u64,
}

impl Default for DebugContext {
    fn default() -> (r: Self)
        ensures
            r.debug_type == DebugType::String,
            r.data@ == Seq::<u8>::empty(),
            r.length == 0,
    {
        DebugContext { debug_type: DebugType::String, data: Vec::new(), length: 0 }
    }
}

impl DebugContext {
    /// Starts a message of `l` bytes, shown as text for type 0 and as bytes for type 1.
    pub fn init(&mut self, debug_type: u64, l: u64)
        requires
            debug_type <= 1,
        ensures
            final(self).debug_type == DebugType::from_code(debug_type),
            final(self).length == l,
            final(self).data@ == old(self).data@,
    {
        self.debug_type = if debug_type == 0 {
            DebugType::String
        } else {
            DebugType::Bytes
        };
        self.length = l;
    }

    /// Takes the next eight bytes of the message, least significant first. Once the
    /// message is complete its bytes are handed back and collecting starts afresh.
    pub fn push(&mut self, d: u64) -> (r: Option<Vec<u8>>)
        ensures
            final(self).debug_type == old(self).debug_type,
            final(self).length == old(self).length,
            ({
                let all = old(self).data@ + le_bytes(d as nat, 8);
                if all.len() >= old(self).length {
                    &&& r matches Some(m) && m@ == all.subrange(0, old(self).length as int)
                    &&& final(self).data@ == Seq::<u8>::empty()
                } else {
                    &&& r is None
                    &&& final(self).data@ == all
                }
            }),
    {
        let mut bytes = u64_to_le_bytes(d);
        self.data.append(&mut bytes);
        if self.data.len() as u64 >= self.length {
            let mut message = Vec::new();
            std::mem::swap(&mut self.data, &mut message);
            message.truncate(self.length as usize);
            Some(message)
        } else {
            None
        }
    }
}

} // verus!
