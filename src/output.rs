use vstd::prelude::*;
use std::collections::HashMap;

verus! {

/// The values kept under each key, as sequences.
pub open spec fn channels(m: Map<u64, Vec<u64>>) -> Map<u64, Seq<u64>> {
    m.map_values(|v: Vec<u64>| v@)
}

/// The values under `key`; none where the key is absent.
pub open spec fn channel(m: Map<u64, Seq<u64>>, key: u64) -> Seq<u64> {
    if m.contains_key(key) {
        m[key]
    } else {
        Seq::empty()
    }
}

/// Appends `v` to the values under `key`, creating the key where it is absent.
fn append_value(output: &mut HashMap<u64, Vec<u64>>, key: u64, v: u64)
    ensures
        channels(final(output)@) == channels(old(output)@).insert(
            key,
            channel(channels(old(output)@), key).push(v),
        ),
{
    let mut target = match output.remove(&key) {
        Some(t) => t,
        None => Vec::new(),
    };
    target.push(v);
    output.insert(key, target);
    proof {
        assert(channels(final(output)@) =~= channels(old(output)@).insert(
            key,
            channel(channels(old(output)@), key).push(v),
        ));
    }
}

/// Values written by a guest program under switchable keys, read back last first.
pub struct OutputContext {
    pub output: HashMap<u64, Vec<u64>>,
    pub current_key: u64,
}

impl OutputContext {
    pub open spec fn outputs(&self) -> Map<u64, Seq<u64>> {
        channels(self.output@)
    }

    pub fn new(output: HashMap<u64, Vec<u64>>) -> (r: Self)
        ensures
            r.outputs() == channels(output@),
            r.current_key == 0,
    {
        OutputContext { output, current_key: 0 }
    }

    pub fn default() -> (r: OutputContext)
        ensures
            r.outputs() == Map::<u64, Seq<u64>>::empty(),
            r.current_key == 0,
    {
        let output = HashMap::new();
        proof {
            assert(channels(output@) =~= Map::<u64, Seq<u64>>::empty());
        }
        OutputContext { output, current_key: 0 }
    }

    pub fn switch_key(&mut self, k: u64)
        ensures
            final(self).current_key == k,
            final(self).outputs() == old(self).outputs(),
    {
        self.current_key = k;
    }

    /// Appends `v` under the current key.
    pub fn push(&mut self, v: u64)
        ensures
            final(self).current_key == old(self).current_key,
            final(self).outputs() == old(self).outputs().insert(
                old(self).current_key,
                channel(old(self).outputs(), old(self).current_key).push(v),
            ),
    {
        append_value(&mut self.output, self.current_key, v);
    }

    /// Takes the last value under the current key; 0 where there is none.
    pub fn pop(&mut self) -> (r: u64)
        ensures
            final(self).current_key == old(self).current_key,
            ({
                let s = channel(old(self).outputs(), old(self).current_key);
                if !old(self).outputs().contains_key(old(self).current_key) {
                    r == 0 && final(self).outputs() == old(self).outputs()
                } else if s.len() == 0 {
                    r == 0 && final(self).outputs() == old(self).outputs()
                } else {
                    r == s.last() && final(self).outputs() == old(self).outputs().insert(
                        old(self).current_key,
                        s.drop_last(),
                    )
                }
            }),
    {
        let key = self.current_key;
        match self.output.remove(&key) {
            None => 0,
            Some(target) => {
                let mut target = target;
                let r = match target.pop() {
                    Some(v) => v,
                    None => 0,
                };
                self.output.insert(key, target);
                proof {
                    let s = channel(old(self).outputs(), key);
                    if s.len() == 0 {
                        assert(self.outputs() =~= old(self).outputs());
                    } else {
                        assert(self.outputs() =~= old(self).outputs().insert(key, s.drop_last()));
                    }
                }
                r
            },
        }
    }
}

/// Values that the host records for the outside world, under keys chosen by the guest.
pub struct ExternalOutputContext {
    pub output: HashMap<u64, Vec<u64>>,
    pub current_key: u64,
}

impl ExternalOutputContext {
    pub open spec fn outputs(&self) -> Map<u64, Seq<u64>> {
        channels(self.output@)
    }

    pub fn new(output: HashMap<u64, Vec<u64>>) -> (r: Self)
        ensures
            r.outputs() == channels(output@),
            r.current_key == 0,
    {
        ExternalOutputContext { output, current_key: 0 }
    }

    pub fn default() -> (r: ExternalOutputContext)
        ensures
            r.outputs() == Map::<u64, Seq<u64>>::empty(),
            r.current_key == 0,
    {
        let output = HashMap::new();
        proof {
            assert(channels(output@) =~= Map::<u64, Seq<u64>>::empty());
        }
        ExternalOutputContext { output, current_key: 0 }
    }

    /// Records a trace count under `address`.
    pub fn log_trace_count(&mut self, address: u64, trace_count: usize)
        ensures
            final(self).current_key == old(self).current_key,
            final(self).outputs() == old(self).outputs().insert(
                address,
                channel(old(self).outputs(), address).push(trace_count as u64),
            ),
    {
        append_value(&mut self.output, address, trace_count as u64);
    }
}

} // verus!
