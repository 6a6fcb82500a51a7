//! A pool of zero-filled byte buffers.
//!
//! A [`ByteBuffer`] keeps buffers of one length. A [`BufferSlice`] is one buffer
//! on loan: it owns its bytes until it is given back, and the pool clears them
//! before it lends them again. When the pool has no buffer left it makes more.

use vstd::prelude::*;
use vstd::slice::slice_to_vec;
use vstd::string::StringSliceAdditionalSpecFns;
use vstd::utf8::valid_utf8;

verus! {
/// How many buffers the pool adds when it has none left to lend.
pub const DEFAULT_GROWTH: usize = 4;

/// The length of a buffer where no pool says otherwise.
pub const DEFAULT_CAPACITY: usize = 512;

/// How many buffers a pool keeps at most, unless told otherwise.
pub const SIZE_CAP: usize = 512;

/// Why a slice could not be read as text.
#[derive(Debug, PartialEq, Eq)]
pub enum SliceError {
    /// The bytes are not UTF-8.
    InvalidData,
}

/// The error of `core::str::from_utf8`; nothing is read from it.
#[verifier::external_type_specification]
#[verifier::external_body]
pub struct ExUtf8Error(core::str::Utf8Error);

/// `core::str::from_utf8` accepts exactly the byte strings that are UTF-8, and
/// the text that it returns has the bytes that it was given.
pub assume_specification<'a>[ core::str::from_utf8 ](v: &'a [u8]) -> (r: Result<
    &'a str,
    core::str::Utf8Error,
>)
    ensures
        r is Ok <==> valid_utf8(v@),
        r matches Ok(text) ==> text.spec_bytes() == v@,
;

/// `len` zero bytes.
pub open spec fn zeros(len: nat) -> Seq<u8> {
    Seq::new(len, |i: int| 0u8)
}

/// What a slice is.
pub struct SliceView {
    /// The place of the buffer in its pool.
    pub id: usize,
    /// The bytes.
    pub bytes: Seq<u8>,
    /// Whether the buffer comes from a pool.
    pub pooled: bool,
    /// Whether the bytes may have been written to.
    pub dirty: bool,
}

/// One buffer on loan.
pub struct BufferSlice {
    id: usize,
    data: Vec<u8>,
    pooled: bool,
    dirty: bool,
}

impl View for BufferSlice {
    type V = SliceView;

    closed spec fn view(&self) -> SliceView {
        SliceView { id: self.id, bytes: self.data@, pooled: self.pooled, dirty: self.dirty }
    }
}

impl BufferSlice {
    /// A slice over `data`. With `pooled` set it stands for buffer `id` of a pool;
    /// otherwise it is a buffer of its own.
    pub fn new(id: usize, data: Vec<u8>, pooled: bool) -> (r: Self)
        ensures
            r@ == (SliceView { id, bytes: data@, pooled, dirty: false }),
    {
        BufferSlice { id, data, pooled, dirty: false }
    }

    /// The bytes, to be written to.
    pub fn as_writable(&mut self) -> (r: &mut [u8])
        ensures
            r@ == old(self)@.bytes,
            final(self)@ == (SliceView { bytes: final(r)@, dirty: true, ..old(self)@ }),
    {
        self.dirty = true;
        self.data.as_mut_slice()
    }

    /// The buffer itself, to be written to and to grow.
    pub fn as_writable_vec(&mut self) -> (r: &mut Vec<u8>)
        ensures
            r@ == old(self)@.bytes,
            final(self)@ == (SliceView { bytes: final(r)@, dirty: true, ..old(self)@ }),
    {
        self.dirty = true;
        &mut self.data
    }

    /// The bytes, to be read.
    pub fn read(&self) -> (r: Option<&[u8]>)
        ensures
            r matches Some(bytes) && bytes@ == self@.bytes,
    {
        Some(self.data.as_slice())
    }

    /// The buffer itself, to be read.
    pub fn read_as_vec(&self) -> (r: Option<&Vec<u8>>)
        ensures
            r matches Some(bytes) && bytes@ == self@.bytes,
    {
        Some(&self.data)
    }

    /// A copy of the bytes.
    pub fn copy_to_vec(&self) -> (r: Vec<u8>)
        ensures
            r@ == self@.bytes,
    {
        match self.read() {
            Some(slice) => slice_to_vec(slice),
            None => Vec::new(),
        }
    }

    /// Clears the bytes of a slice that may have been written to: every byte
    /// becomes zero. A slice that was never handed out for writing is clear
    /// already and stays as it is.
    pub fn reset(&mut self)
        ensures
            final(self)@ == (SliceView {
                bytes: if old(self)@.dirty {
                    zeros(old(self)@.bytes.len())
                } else {
                    old(self)@.bytes
                },
                ..old(self)@
            }),
    {
        if !self.dirty {
            return ;
        }
        clear_bytes(&mut self.data);
    }

    /// The bytes as text, if they are UTF-8.
    pub fn try_into_string(&self) -> (r: Result<&str, SliceError>)
        ensures
            r is Ok <==> valid_utf8(self@.bytes),
            r matches Ok(text) ==> text.spec_bytes() == self@.bytes,
            r matches Err(e) ==> e == SliceError::InvalidData,
    {
        if let Some(slice) = self.read() {
            return match core::str::from_utf8(slice) {
                Ok(raw) => Ok(raw),
                Err(_) => Err(SliceError::InvalidData),
            };
        }
        Err(SliceError::InvalidData)
    }

    /// Number of bytes.
    pub fn len(&self) -> (r: usize)
        ensures
            r == self@.bytes.len(),
    {
        self.data.len()
    }

    /// The place of the buffer in its pool.
    pub fn id(&self) -> (r: usize)
        ensures
            r == self@.id,
    {
        self.id
    }
}

/// Sets every byte to zero.
pub fn clear_bytes(data: &mut Vec<u8>)
    ensures
        final(data)@ == zeros(old(data)@.len()),
{
    let mut i: usize = 0;
    while i < data.len()
        invariant
            i <= data@.len(),
            data@.len() == old(data)@.len(),
            forall|j: int| 0 <= j < i ==> data@[j] == 0u8,
        decreases data@.len() - i,
    {
        data[i] = 0;
        i += 1;
    }
}

/// A buffer of `len` zero bytes.
pub fn make_buffer(len: usize) -> (r: Vec<u8>)
    ensures
        r@ == zeros(len as nat),
{
    let mut r: Vec<u8> = Vec::with_capacity(len);
    let mut i: usize = 0;
    while i < len
        invariant
            i <= len,
            r@.len() == i,
            forall|j: int| 0 <= j < i ==> r@[j] == 0u8,
        decreases len - i,
    {
        r.push(0);
        i += 1;
    }
    r
}

/// What a pool of buffers is.
pub struct BufferView {
    /// The buffers by their place; `None` where the buffer is on loan.
    pub store: Seq<Option<Seq<u8>>>,
    /// The places of the buffers that can be lent, the next one last.
    pub free: Seq<usize>,
    /// The length of every buffer.
    pub slice_capacity: usize,
    /// How many buffers the pool keeps at most when it is given one.
    pub size_cap: usize,
}

impl BufferView {
    /// Every free place holds a clear buffer of the pool's length, no place is
    /// free twice, and every buffer that is not on loan is free.
    pub open spec fn wf(self) -> bool {
        &&& forall|k: int|
            0 <= k < self.free.len() ==> (#[trigger] self.free[k]) < self.store.len()
                && self.store[self.free[k] as int] == Some(zeros(self.slice_capacity as nat))
        &&& forall|k: int, l: int|
            0 <= k < l < self.free.len() ==> #[trigger] self.free[k] != #[trigger] self.free[l]
        &&& forall|id: usize|
            id < self.store.len() && self.store[id as int] is Some
                ==> #[trigger] self.free.contains(id)
    }
}

/// A pool of byte buffers of one length.
pub struct ByteBuffer {
    store: Vec<Option<Vec<u8>>>,
    pool: Vec<usize>,
    slice_capacity: usize,
    size_cap: usize,
}

/// The contents of the buffers of a store.
pub open spec fn contents(store: Seq<Option<Vec<u8>>>) -> Seq<Option<Seq<u8>>> {
    Seq::new(
        store.len(),
        |id: int|
            match store[id] {
                Some(buffer) => Some(buffer@),
                None => None,
            },
    )
}

impl View for ByteBuffer {
    type V = BufferView;

    closed spec fn view(&self) -> BufferView {
        BufferView {
            store: contents(self.store@),
            free: self.pool@,
            slice_capacity: self.slice_capacity,
            size_cap: self.size_cap,
        }
    }
}

impl ByteBuffer {
    /// The pool's invariant.
    pub open spec fn wf(&self) -> bool {
        self@.wf()
    }

    /// A pool of `size` buffers of `capacity` zero bytes each.
    pub fn init(size: usize, capacity: usize) -> (r: Self)
        ensures
            r.wf(),
            r@.store == Seq::new(size as nat, |id: int| Some(zeros(capacity as nat))),
            r@.free == Seq::new(size as nat, |id: int| id as usize),
            r@.slice_capacity == capacity,
            r@.size_cap == if size > SIZE_CAP {
                size
            } else {
                SIZE_CAP
            },
    {
        let mut store: Vec<Option<Vec<u8>>> = Vec::with_capacity(size);
        let mut pool: Vec<usize> = Vec::with_capacity(size);
        let mut id: usize = 0;
        while id < size
            invariant
                id <= size,
                store@.len() == id,
                pool@.len() == id,
                forall|k: int| 0 <= k < id ==> (#[trigger] pool@[k]) == k,
                forall|k: int|
                    0 <= k < id ==> (#[trigger] store@[k]) is Some && store@[k].unwrap()@ == zeros(
                        capacity as nat,
                    ),
            decreases size - id,
        {
            store.push(Some(make_buffer(capacity)));
            pool.push(id);
            id += 1;
        }
        let size_cap: usize = if size > SIZE_CAP {
            size
        } else {
            SIZE_CAP
        };
        let r = ByteBuffer { store, pool, slice_capacity: capacity, size_cap };
        proof {
            assert forall|id: usize| id < r@.store.len() implies #[trigger] r@.free.contains(
                id,
            ) by {
                assert(r@.free[id as int] == id);
            }
        }
        r
    }

    /// The length of the pool's buffers.
    pub fn default_capacity(&self) -> (r: usize)
        ensures
            r == self@.slice_capacity,
    {
        self.slice_capacity
    }

    /// Sets how many buffers the pool keeps at most when it is given one.
    pub fn set_size_limit(&mut self, limit: usize)
        ensures
            final(self)@ == (BufferView { size_cap: limit, ..old(self)@ }),
    {
        self.size_cap = limit;
    }

    /// Number of buffers that can be lent.
    pub fn available(&self) -> (r: usize)
        ensures
            r == self@.free.len(),
    {
        self.pool.len()
    }

    /// Number of buffers, lent or not.
    pub fn size(&self) -> (r: usize)
        ensures
            r == self@.store.len(),
    {
        self.store.len()
    }
}

impl BufferView {
    /// The pool once its next free buffer is on loan.
    pub open spec fn after_reserve(self) -> Self {
        BufferView {
            store: self.store.update(self.free.last() as int, None),
            free: self.free.drop_last(),
            ..self
        }
    }

    /// The pool with `additional` clear buffers more, all of them free.
    pub open spec fn after_extend(self, additional: nat) -> Self {
        BufferView {
            store: self.store + Seq::new(
                additional,
                |k: int| Some(zeros(self.slice_capacity as nat)),
            ),
            free: self.free + Seq::new(additional, |k: int| (self.store.len() + k) as usize),
            ..self
        }
    }

    /// Whether a slice goes back to the place that it was lent from.
    pub open spec fn takes_back(self, slice: SliceView) -> bool {
        slice.pooled && slice.id < self.store.len() && self.store[slice.id as int] is None
    }

    /// The pool once `slice` has been given to it. A slice that was lent from
    /// the pool goes back to its place; any other buffer gets a place of its own
    /// while the pool has fewer buffers than its limit, and is dropped otherwise.
    /// Whatever is kept is cleared and has the pool's length.
    pub open spec fn after_release(self, slice: SliceView) -> Self {
        if self.takes_back(slice) {
            BufferView {
                store: self.store.update(
                    slice.id as int,
                    Some(zeros(self.slice_capacity as nat)),
                ),
                free: self.free.push(slice.id),
                ..self
            }
        } else if self.store.len() < self.size_cap {
            BufferView {
                store: self.store.push(Some(zeros(self.slice_capacity as nat))),
                free: self.free.push(self.store.len() as usize),
                ..self
            }
        } else {
            self
        }
    }
}

impl ByteBuffer {
    /// Lends a buffer if one is free.
    pub fn try_slice(&mut self) -> (r: Option<BufferSlice>)
        requires
            old(self).wf(),
        ensures
            final(self).wf(),
            r is Some <==> old(self)@.free.len() > 0,
            r is None ==> final(self)@ == old(self)@,
            r matches Some(slice) ==> {
                &&& slice@ == (SliceView {
                    id: old(self)@.free.last(),
                    bytes: zeros(old(self)@.slice_capacity as nat),
                    pooled: true,
                    dirty: false,
                })
                &&& final(self)@ == old(self)@.after_reserve()
            },
    {
        let id: usize = match self.pool.pop() {
            Some(id) => id,
            None => {
                return None;
            },
        };
        let data: Vec<u8> = match self.store[id].take() {
            Some(data) => data,
            None => {
                return None;
            },
        };
        proof {
            let before = old(self)@;
            let after = self@;
            assert(after.store =~= before.store.update(id as int, None));
            assert forall|other: usize|
                other < after.store.len() && after.store[other as int]
                    is Some implies #[trigger] after.free.contains(other) by {
                assert(before.free.contains(other));
                let k = choose|k: int| 0 <= k < before.free.len() && before.free[k] == other;
                assert(after.free[k] == other);
            }
        }
        Some(BufferSlice::new(id, data, true))
    }

    /// Adds `additional` clear buffers and tells the place of the last one.
    pub fn extend(&mut self, additional: usize) -> (r: usize)
        requires
            old(self).wf(),
            additional > 0,
            old(self)@.store.len() + additional <= usize::MAX,
        ensures
            final(self).wf(),
            final(self)@ == old(self)@.after_extend(additional as nat),
            r == old(self)@.store.len() + additional - 1,
    {
        let capacity: usize = self.slice_capacity;
        let start: usize = self.store.len();
        let mut offset: usize = 0;
        while offset < additional
            invariant
                offset <= additional,
                start == old(self).store@.len(),
                start + additional <= usize::MAX,
                capacity == self.slice_capacity,
                self.slice_capacity == old(self).slice_capacity,
                self.size_cap == old(self).size_cap,
                self.store@.len() == start + offset,
                self.pool@.len() == old(self).pool@.len() + offset,
                forall|k: int|
                    0 <= k < start ==> (#[trigger] self.store@[k]) == old(self).store@[k],
                forall|k: int|
                    start <= k < start + offset ==> (#[trigger] self.store@[k]) is Some
                        && self.store@[k].unwrap()@ == zeros(capacity as nat),
                forall|k: int|
                    0 <= k < old(self).pool@.len() ==> (#[trigger] self.pool@[k]) == old(
                        self,
                    ).pool@[k],
                forall|k: int|
                    0 <= k < offset ==> (#[trigger] self.pool@[old(self).pool@.len() + k]) == start
                        + k,
            decreases additional - offset,
        {
            self.store.push(Some(make_buffer(capacity)));
            self.pool.push(start + offset);
            offset += 1;
        }
        proof {
            let before = old(self)@;
            let after = self@;
            let grown = before.after_extend(additional as nat);
            assert(after.store =~= grown.store);
            assert forall|i: int| 0 <= i < after.free.len() implies after.free[i]
                == grown.free[i] by {
                if i >= before.free.len() {
                    let k = i - before.free.len();
                    assert(self.pool@[old(self).pool@.len() + k] == start + k);
                }
            }
            assert(after.free =~= grown.free);
            assert forall|other: usize|
                other < after.store.len() && after.store[other as int]
                    is Some implies #[trigger] after.free.contains(other) by {
                if other < before.store.len() {
                    assert(before.free.contains(other));
                    let k = choose|k: int| 0 <= k < before.free.len() && before.free[k] == other;
                    assert(after.free[k] == other);
                } else {
                    assert(after.free[before.free.len() + (other - start)] == other);
                }
            }
        }
        self.store.len() - 1
    }

    /// Lends a buffer; if none is free, the pool first adds
    /// [`DEFAULT_GROWTH`] buffers.
    pub fn slice(&mut self) -> (r: BufferSlice)
        requires
            old(self).wf(),
            old(self)@.store.len() + DEFAULT_GROWTH <= usize::MAX,
        ensures
            final(self).wf(),
            final(self)@ == if old(self)@.free.len() > 0 {
                old(self)@.after_reserve()
            } else {
                old(self)@.after_extend(DEFAULT_GROWTH as nat).after_reserve()
            },
            r@ == (SliceView {
                id: if old(self)@.free.len() > 0 {
                    old(self)@.free.last()
                } else {
                    (old(self)@.store.len() + DEFAULT_GROWTH - 1) as usize
                },
                bytes: zeros(old(self)@.slice_capacity as nat),
                pooled: true,
                dirty: false,
            }),
    {
        if self.pool.len() == 0 {
            self.extend(DEFAULT_GROWTH);
        }
        match self.try_slice() {
            Some(val) => val,
            None => BufferSlice::new(0, make_buffer(self.slice_capacity), false),
        }
    }

    /// Takes a buffer back. A slice that was lent from this pool goes back to its
    /// place; any other buffer is kept as a new one while the pool has fewer
    /// buffers than its limit, and dropped otherwise. Whatever is kept is cleared
    /// and brought to the pool's length first.
    pub fn release(&mut self, slice: BufferSlice)
        requires
            old(self).wf(),
        ensures
            final(self).wf(),
            final(self)@ == old(self)@.after_release(slice@),
    {
        let capacity: usize = self.slice_capacity;
        let id: usize = slice.id;
        let pooled: bool = slice.pooled;
        let mut data: Vec<u8> = slice.data;
        if data.len() == capacity {
            clear_bytes(&mut data);
        } else {
            data = make_buffer(capacity);
        }
        let ghost before = self@;
        if pooled && id < self.store.len() && self.store[id].is_none() {
            self.store[id] = Some(data);
            self.pool.push(id);
            proof {
                let after = self@;
                assert(after.store =~= before.store.update(
                    id as int,
                    Some(zeros(capacity as nat)),
                ));
                assert forall|other: usize|
                    other < after.store.len() && after.store[other as int]
                        is Some implies #[trigger] after.free.contains(other) by {
                    if other == id {
                        assert(after.free[before.free.len() as int] == id);
                    } else {
                        assert(before.free.contains(other));
                        let k = choose|k: int|
                            0 <= k < before.free.len() && before.free[k] == other;
                        assert(after.free[k] == other);
                    }
                }
            }
        } else if self.store.len() < self.size_cap {
            let place: usize = self.store.len();
            self.store.push(Some(data));
            self.pool.push(place);
            proof {
                let after = self@;
                assert(after.store =~= before.store.push(Some(zeros(capacity as nat))));
                assert forall|other: usize|
                    other < after.store.len() && after.store[other as int]
                        is Some implies #[trigger] after.free.contains(other) by {
                    if other == place {
                        assert(after.free[before.free.len() as int] == place);
                    } else {
                        assert(before.free.contains(other));
                        let k = choose|k: int|
                            0 <= k < before.free.len() && before.free[k] == other;
                        assert(after.free[k] == other);
                    }
                }
            }
        }
    }
}

/// What can be asked of a pool of buffers.
pub enum BufOp {
    /// Lend a buffer; with the flag set, make more buffers if none is free.
    Reserve(bool),
    /// Take a slice back.
    Release(BufferSlice),
    /// Take a buffer that never belonged to the pool.
    ReleaseAndExtend(Vec<u8>),
    /// Add this many buffers.
    Extend(usize),
}

/// What a slice that is done asks of the pool's worker.
pub enum WorkerOp {
    /// Clear the slice and take it back.
    Cleanup(BufferSlice),
    /// Stop working.
    Shutdown,
}

/// How many requests the queue to the worker holds.
pub const QUEUE_DEPTH: usize = 8;

/// The largest queue that can be asked for.
pub const QUEUE_LIMIT: usize = 65_535;

/// The sending half of a `crossbeam_channel` channel. Nothing is read from it.
#[verifier::external_type_specification]
#[verifier::external_body]
#[verifier::reject_recursive_types(T)]
pub struct ExSender<T>(crossbeam_channel::Sender<T>);

/// The receiving half of a `crossbeam_channel` channel. Nothing is read from it.
#[verifier::external_type_specification]
#[verifier::external_body]
#[verifier::reject_recursive_types(T)]
pub struct ExReceiver<T>(crossbeam_channel::Receiver<T>);

/// `crossbeam_channel::bounded` makes a channel that holds up to `depth` messages
/// and hands out its two halves. It panics where the capacity is too large for
/// its index arithmetic or for the allocator, which a depth within
/// [`QUEUE_LIMIT`] is not. Nothing is claimed of the halves.
#[verifier::external_body]
pub(crate) fn open_queue(depth: usize) -> (r: (
    crossbeam_channel::Sender<WorkerOp>,
    crossbeam_channel::Receiver<WorkerOp>,
))
    requires
        depth <= QUEUE_LIMIT,
{
    crossbeam_channel::bounded(depth)
}

/// `Sender::try_send` puts the request into the channel at once or fails, because
/// the channel is full or has no receiver left; the error then holds the request
/// as it was given, and `TrySendError::into_inner` hands it out. Whether the
/// request goes in depends on the other users of the channel: nothing is claimed
/// of that.
#[verifier::external_body]
pub(crate) fn offer(queue: &crossbeam_channel::Sender<WorkerOp>, request: WorkerOp) -> (r: Option<
    WorkerOp,
>)
    ensures
        r matches Some(back) ==> back == request,
{
    match queue.try_send(request) {
        Ok(()) => None,
        Err(err) => Some(err.into_inner()),
    }
}

/// `Receiver::try_recv` takes a request out of the channel at once or fails,
/// because the channel is empty or has no sender left. What comes out depends on
/// the other users of the channel: nothing is claimed of it.
#[verifier::external_body]
pub(crate) fn poll(queue: &crossbeam_channel::Receiver<WorkerOp>) -> (r: Option<WorkerOp>) {
    match queue.try_recv() {
        Ok(request) => Some(request),
        Err(_) => None,
    }
}

impl BufferView {
    /// The pool once the slices of `slices` have been given to it, in order.
    pub open spec fn after_releases(self, slices: Seq<SliceView>) -> Self
        decreases slices.len(),
    {
        if slices.len() == 0 {
            self
        } else {
            self.after_releases(slices.drop_last()).after_release(slices.last())
        }
    }
}

/// The queue on which slices that are done travel back to their pool.
pub struct WorkQueue {
    sender: crossbeam_channel::Sender<WorkerOp>,
    receiver: crossbeam_channel::Receiver<WorkerOp>,
}

impl WorkQueue {
    /// A queue that holds up to [`QUEUE_DEPTH`] requests.
    pub fn new() -> (r: Self) {
        let (sender, receiver) = open_queue(QUEUE_DEPTH);
        WorkQueue { sender, receiver }
    }

    /// Sends `slice` to the worker, to be cleared and taken back. If the queue
    /// has no room the slice comes back. Whether the queue has room is up to the
    /// queue and its other users; [`WorkQueue::returned`] says what comes back for
    /// each answer of the queue.
    pub fn reset_and_release(&self, slice: BufferSlice) -> (r: Option<BufferSlice>)
        ensures
            r matches Some(back) ==> back == slice,
    {
        let answer = offer(&self.sender, WorkerOp::Cleanup(slice));
        Self::returned(answer)
    }

    /// Tells the worker to stop. Fails if the queue has no room, which is up to
    /// the queue and its other users; [`WorkQueue::accepted`] says what the
    /// result is for each answer of the queue.
    pub fn shutdown(&self) -> (r: bool) {
        let answer = offer(&self.sender, WorkerOp::Shutdown);
        Self::accepted(&answer)
    }

    /// The slice that comes back to its sender with the answer of the queue: the
    /// slice of the request, where the queue has handed the request back.
    pub fn returned(answer: Option<WorkerOp>) -> (r: Option<BufferSlice>)
        ensures
            r == match answer {
                Some(WorkerOp::Cleanup(back)) => Some(back),
                _ => None::<BufferSlice>,
            },
    {
        match answer {
            Some(WorkerOp::Cleanup(back)) => Some(back),
            Some(WorkerOp::Shutdown) => None,
            None => None,
        }
    }

    /// Whether the answer of the queue says that it took the request: it does
    /// where the queue has handed nothing back.
    pub fn accepted(answer: &Option<WorkerOp>) -> (r: bool)
        ensures
            r == (answer is None),
    {
        answer.is_none()
    }
}

impl ByteBuffer {
    /// Does what `command` asks for. A reservation answers with the slice that
    /// it lends, if it lends one; nothing else has an answer.
    pub fn manage(&mut self, command: BufOp) -> (r: Option<BufferSlice>)
        requires
            old(self).wf(),
            old(self)@.store.len() + DEFAULT_GROWTH <= usize::MAX,
            command matches BufOp::Extend(count) ==> count > 0 && old(self)@.store.len() + count
                <= usize::MAX,
        ensures
            final(self).wf(),
            match command {
                BufOp::Reserve(forced) => {
                    &&& r is Some <==> forced || old(self)@.free.len() > 0
                    &&& final(self)@ == if old(self)@.free.len() > 0 {
                        old(self)@.after_reserve()
                    } else if forced {
                        old(self)@.after_extend(DEFAULT_GROWTH as nat).after_reserve()
                    } else {
                        old(self)@
                    }
                    &&& r matches Some(slice) ==> slice@ == (SliceView {
                        id: if old(self)@.free.len() > 0 {
                            old(self)@.free.last()
                        } else {
                            (old(self)@.store.len() + DEFAULT_GROWTH - 1) as usize
                        },
                        bytes: zeros(old(self)@.slice_capacity as nat),
                        pooled: true,
                        dirty: false,
                    })
                },
                BufOp::Release(slice) => r is None && final(self)@ == old(self)@.after_release(
                    slice@,
                ),
                BufOp::ReleaseAndExtend(vec) => r is None && final(self)@ == old(
                    self,
                )@.after_release(SliceView { id: 0, bytes: vec@, pooled: false, dirty: false }),
                BufOp::Extend(count) => r is None && final(self)@ == old(self)@.after_extend(
                    count as nat,
                ),
            },
    {
        match command {
            BufOp::Reserve(forced) => {
                if forced {
                    Some(self.slice())
                } else {
                    self.try_slice()
                }
            },
            BufOp::Release(slice) => {
                self.release(slice);
                None
            },
            BufOp::ReleaseAndExtend(vec) => {
                self.release(BufferSlice::new(0, vec, false));
                None
            },
            BufOp::Extend(count) => {
                self.extend(count);
                None
            },
        }
    }

    /// Does what one request to the worker asks for, and tells whether the worker
    /// is to go on: a slice is cleared and taken back, a shutdown stops the
    /// worker and changes nothing.
    pub fn handle_message(&mut self, message: WorkerOp) -> (r: bool)
        requires
            old(self).wf(),
        ensures
            final(self).wf(),
            match message {
                WorkerOp::Cleanup(slice) => r && final(self)@ == old(self)@.after_release(slice@),
                WorkerOp::Shutdown => !r && final(self)@ == old(self)@,
            },
    {
        match message {
            WorkerOp::Cleanup(slice) => {
                self.release(slice);
                true
            },
            WorkerOp::Shutdown => false,
        }
    }

    /// Serves the requests that wait in `queue`, at most [`QUEUE_DEPTH`] of them,
    /// and tells whether the worker is to go on. Whatever waits there, the pool
    /// is as if the slices that came out had been given to it one by one.
    pub fn handle_work(&mut self, queue: &WorkQueue) -> (r: bool)
        requires
            old(self).wf(),
        ensures
            final(self).wf(),
            exists|slices: Seq<SliceView>|
                slices.len() <= QUEUE_DEPTH && final(self)@ == #[trigger] old(
                    self,
                )@.after_releases(slices),
    {
        let ghost mut served: Seq<SliceView> = Seq::empty();
        let mut left: usize = QUEUE_DEPTH;
        while left > 0
            invariant
                self.wf(),
                left <= QUEUE_DEPTH,
                served.len() == QUEUE_DEPTH - left,
                self@ == old(self)@.after_releases(served),
            decreases left,
        {
            let message = match poll(&queue.receiver) {
                Some(message) => message,
                None => {
                    return true;
                },
            };
            let ghost before = served;
            proof {
                if message is Cleanup {
                    served = served.push(message->Cleanup_0@);
                    assert(served.drop_last() == before);
                }
            }
            if !self.handle_message(message) {
                return false;
            }
            left -= 1;
        }
        true
    }
}

impl BufferView {
    /// A buffer that was lent and comes back untouched or not leaves the pool as
    /// it was before the loan: the same buffers, all clear, the same one next.
    pub proof fn lemma_reserve_release(self, bytes: Seq<u8>, dirty: bool)
        requires
            self.wf(),
            self.free.len() > 0,
        ensures
            self.after_reserve().after_release(
                SliceView { id: self.free.last(), bytes, pooled: true, dirty },
            ) == self,
    {
        let lent = self.after_reserve();
        let id = self.free.last();
        let back = lent.after_release(SliceView { id, bytes, pooled: true, dirty });
        assert(back.store =~= self.store);
        assert(back.free =~= self.free);
    }
}
} // verus!
