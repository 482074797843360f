use vstd::prelude::*;
use std::collections::HashMap;
use crate::bytes::le_bytes;
use crate::bytes::u64_to_le_bytes;

verus! {

/// A guest-callable function that takes its whole argument at once.
pub trait LiteFunction<T> {
    fn consume(&mut self, data: Vec<T>);
}

/// A guest-callable function that collects its argument one word at a time.
pub trait HostFunction {
    /// How many units one word adds; fixed for the function.
    spec fn unit_size(&self) -> usize;

    /// Hands the collected argument over and starts afresh.
    fn consume(&mut self)
        ensures
            final(self).unit_size() == old(self).unit_size(),
    ;

    /// Collects one more word.
    fn store(&mut self, data: u64)
        ensures
            final(self).unit_size() == old(self).unit_size(),
    ;

    /// Drops the last `size` units collected.
    fn cut(&mut self, size: usize)
        ensures
            final(self).unit_size() == old(self).unit_size(),
    ;

    fn u64_size(&self) -> (r: usize)
        ensures
            r == self.unit_size(),
            1 <= r <= 8,
    ;
}

/// A function whose argument is bytes; each word adds its eight bytes.
pub struct BytesFunction<T: LiteFunction<u8>> {
    data: Vec<u8>,
    pub internal: T,
}

impl<T: LiteFunction<u8>> BytesFunction<T> {
    pub closed spec fn collected(&self) -> Seq<u8> {
        self.data@
    }

    pub closed spec fn inner(&self) -> T {
        self.internal
    }

    pub fn new(internal: T) -> (r: Self)
        ensures
            r.collected() == Seq::<u8>::empty(),
            r.inner() == internal,
    {
        Self { data: Vec::new(), internal }
    }

    /// Appends the eight bytes of a word, least significant first.
    pub fn store_bytes(&mut self, data: u64)
        ensures
            final(self).collected() == old(self).collected() + le_bytes(data as nat, 8),
            final(self).inner() == old(self).inner(),
    {
        let mut bytes = u64_to_le_bytes(data);
        self.data.append(&mut bytes);
    }

    /// Drops the last `size` bytes, or all of them where there are fewer.
    pub fn cut_bytes(&mut self, size: usize)
        ensures
            final(self).inner() == old(self).inner(),
            final(self).collected() == if size <= old(self).collected().len() {
                old(self).collected().subrange(0, old(self).collected().len() - size)
            } else {
                Seq::<u8>::empty()
            },
    {
        let l = self.data.len();
        if size <= l {
            self.data.truncate(l - size);
        } else {
            self.data.clear();
        }
    }
}

impl<T: LiteFunction<u8>> HostFunction for BytesFunction<T> {
    open spec fn unit_size(&self) -> usize {
        8
    }

    fn consume(&mut self) {
        let mut data = Vec::new();
        std::mem::swap(&mut self.data, &mut data);
        self.internal.consume(data);
    }

    fn store(&mut self, data: u64) {
        self.store_bytes(data);
    }

    fn cut(&mut self, size: usize) {
        self.cut_bytes(size);
    }

    fn u64_size(&self) -> (r: usize) {
        8
    }
}

/// A function whose argument is words.
pub struct U64Function<T: LiteFunction<u64>> {
    data: Vec<u64>,
    pub internal: T,
}

impl<T: LiteFunction<u64>> U64Function<T> {
    pub closed spec fn collected(&self) -> Seq<u64> {
        self.data@
    }

    pub closed spec fn inner(&self) -> T {
        self.internal
    }

    pub fn new(internal: T) -> (r: Self)
        ensures
            r.collected() == Seq::<u64>::empty(),
            r.inner() == internal,
    {
        Self { data: Vec::new(), internal }
    }
}

impl<T: LiteFunction<u64>> HostFunction for U64Function<T> {
    open spec fn unit_size(&self) -> usize {
        1
    }

    fn consume(&mut self) {
        let mut data = Vec::new();
        std::mem::swap(&mut self.data, &mut data);
        self.internal.consume(data);
    }

    fn store(&mut self, data: u64) {
        self.data.push(data);
    }

    fn cut(&mut self, size: usize) {
        let l = self.data.len();
        if size <= l {
            self.data.truncate(l - size);
        } else {
            self.data.clear();
        }
    }

    fn u64_size(&self) -> (r: usize) {
        1
    }
}

/// A registered function with the length of the argument it awaits and how much of it
/// has come.
pub struct FunctionWrapper<F> {
    fun: F,
    length: u64,
    current_size: u64,
}

impl<F> FunctionWrapper<F> {
    pub closed spec fn progress(&self) -> (u64, u64) {
        (self.length, self.current_size)
    }

    pub closed spec fn function(&self) -> F {
        self.fun
    }

    pub fn new(fun: F) -> (r: Self)
        ensures
            r.progress() == (0u64, 0u64),
            r.function() == fun,
    {
        Self { fun, length: 0, current_size: 0 }
    }
}

/// The bookkeeping after one more word of `size` units: once the awaited length is
/// reached the function is called and both counts return to zero.
pub open spec fn next_progress(p: (u64, u64), size: u64) -> (u64, u64) {
    let (length, current) = p;
    let c = if current + size > u64::MAX {
        u64::MAX
    } else {
        (current + size) as u64
    };
    if c >= length {
        (0, 0)
    } else {
        (length, c)
    }
}

/// Dispatches the words a guest sends to the function it selected.
pub struct FunctionContext<F: HostFunction> {
    methods: HashMap<u64, FunctionWrapper<F>>,
    method: u64,
}

impl<F: HostFunction> FunctionContext<F> {
    /// Per registered method: the awaited length and how much has come.
    pub closed spec fn progress(&self) -> Map<u64, (u64, u64)> {
        self.methods@.map_values(|w: FunctionWrapper<F>| w.progress())
    }

    pub closed spec fn current_method(&self) -> u64 {
        self.method
    }

    /// The function registered under each method.
    pub closed spec fn functions(&self) -> Map<u64, F> {
        self.methods@.map_values(|w: FunctionWrapper<F>| w.function())
    }

    pub fn new() -> (r: Self)
        ensures
            r.progress() == Map::<u64, (u64, u64)>::empty(),
            r.functions() == Map::<u64, F>::empty(),
            r.current_method() == 0,
    {
        let methods = HashMap::new();
        proof {
            assert(methods@.map_values(|w: FunctionWrapper<F>| w.function()) =~= Map::<u64, F>::empty());
            assert(methods@.map_values(|w: FunctionWrapper<F>| w.progress()) =~= Map::<
                u64,
                (u64, u64),
            >::empty());
        }
        Self { methods, method: 0 }
    }

    /// Sets the length of the argument that the current method awaits.
    pub fn set_length(&mut self, len: u64)
        requires
            old(self).progress().contains_key(old(self).current_method()),
        ensures
            final(self).current_method() == old(self).current_method(),
            final(self).progress() == old(self).progress().insert(
                old(self).current_method(),
                (len, old(self).progress()[old(self).current_method()].1),
            ),
            final(self).functions() == old(self).functions(),
    {
        let key = self.method;
        match self.methods.remove(&key) {
            Some(wrapper) => {
                let mut wrapper = wrapper;
                wrapper.length = len;
                self.methods.insert(key, wrapper);
                proof {
                    assert(self.progress() =~= old(self).progress().insert(
                        key,
                        (len, old(self).progress()[key].1),
                    ));
                    assert(self.functions() =~= old(self).functions());
                }
            },
            None => {},
        }
    }

    pub fn set_method(&mut self, method: u64)
        ensures
            final(self).current_method() == method,
            final(self).progress() == old(self).progress(),
            final(self).functions() == old(self).functions(),
    {
        self.method = method;
    }

    /// Passes one word to the current method, and calls it once its argument is
    /// complete, after dropping what went past the awaited length.
    pub fn receive(&mut self, data: u64)
        requires
            old(self).progress().contains_key(old(self).current_method()),
        ensures
            final(self).current_method() == old(self).current_method(),
            final(self).functions().dom() == old(self).functions().dom(),
            forall|m: u64|
                m != old(self).current_method() && old(self).functions().contains_key(m)
                    ==> #[trigger] final(self).functions()[m] == old(self).functions()[m],
            final(self).functions()[old(self).current_method()].unit_size() == old(
                self,
            ).functions()[old(self).current_method()].unit_size(),
            final(self).progress() == old(self).progress().insert(
                old(self).current_method(),
                next_progress(
                    old(self).progress()[old(self).current_method()],
                    old(self).functions()[old(self).current_method()].unit_size() as u64,
                ),
            ),
    {
        let key = self.method;
        match self.methods.remove(&key) {
            Some(wrapper) => {
                let mut wrapper = wrapper;
                let size = wrapper.fun.u64_size() as u64;
                let ghost before = wrapper.progress();
                wrapper.current_size = wrapper.current_size.saturating_add(size);
                wrapper.fun.store(data);
                if wrapper.current_size >= wrapper.length {
                    let delta = wrapper.current_size - wrapper.length;
                    if delta > 0 {
                        wrapper.fun.cut(delta as usize);
                    }
                    wrapper.fun.consume();
                    wrapper.current_size = 0;
                    wrapper.length = 0;
                }
                assert(wrapper.progress() == next_progress(before, size));
                self.methods.insert(key, wrapper);
                proof {
                    assert(self.progress() =~= old(self).progress().insert(
                        key,
                        next_progress(old(self).progress()[key], size),
                    ));
                    assert(self.functions().dom() =~= old(self).functions().dom());
                }
            },
            None => {},
        }
    }

    /// Registers `func` under `method`, replacing what was there.
    pub fn register(&mut self, method: u64, func: F)
        ensures
            final(self).current_method() == old(self).current_method(),
            final(self).progress() == old(self).progress().insert(method, (0u64, 0u64)),
            final(self).functions() == old(self).functions().insert(method, func),
    {
        self.methods.insert(method, FunctionWrapper::new(func));
        proof {
            assert(self.progress() =~= old(self).progress().insert(method, (0u64, 0u64)));
            assert(self.functions() =~= old(self).functions().insert(method, func));
        }
    }

    /// The function registered under `method`.
    pub fn function(&self, method: u64) -> (r: Option<&F>)
        ensures
            r is Some <==> self.progress().contains_key(method),
            r matches Some(f) ==> *f == self.functions()[method],
    {
        match self.methods.get(&method) {
            Some(w) => Some(&w.fun),
            None => None,
        }
    }
}

} // verus!
