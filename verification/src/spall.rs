//! Event records of the spall trace format, and the double-buffer
//! bookkeeping of a per-thread trace writer.
//!
//! Records are packed little-endian structures. Timestamps are stored as the
//! bit pattern of an `f64`; turning a tick count into that number is left to
//! the caller.
use vstd::prelude::*;
use vstd::bytes::{spec_u32_to_le_bytes, spec_u64_to_le_bytes, spec_u32_from_le_bytes, spec_u64_from_le_bytes, u32_to_le_bytes, u64_to_le_bytes, lemma_auto_spec_u32_to_from_le_bytes, lemma_auto_spec_u64_to_from_le_bytes};

verus! {

/// The buffer size a new thread context starts with: 2 MiB.
pub const DEFAULT_BUFFER_SIZE: usize = 2 * 1024 * 1024;

/// The kind of a trace record.
#[derive(Clone, Copy, Debug, PartialEq, Eq, Structural)]
pub enum EventType {
    Invalid,
    /// Readers that only know the basic records skip this one.
    CustomData,
    StreamOver,
    Begin,
    End,
    Instant,
    /// Changes the timestamp unit after the fact.
    OverwriteTimestamp,
    PadSkip,
}

/// The byte that identifies a record kind in the format.
pub open spec fn event_code(t: EventType) -> u8 {
    match t {
        EventType::Invalid => 0,
        EventType::CustomData => 1,
        EventType::StreamOver => 2,
        EventType::Begin => 3,
        EventType::End => 4,
        EventType::Instant => 5,
        EventType::OverwriteTimestamp => 6,
        EventType::PadSkip => 7,
    }
}

impl EventType {
    /// The byte that identifies this record kind.
    pub fn code(self) -> (r: u8)
        ensures
            r == event_code(self),
    {
        match self {
            EventType::Invalid => 0,
            EventType::CustomData => 1,
            EventType::StreamOver => 2,
            EventType::Begin => 3,
            EventType::End => 4,
            EventType::Instant => 5,
            EventType::OverwriteTimestamp => 6,
            EventType::PadSkip => 7,
        }
    }
}

/// Distinct record kinds have distinct codes.
pub proof fn lemma_event_code_injective(a: EventType, b: EventType)
    ensures
        event_code(a) == event_code(b) <==> a == b,
{
}

/// Global trace settings and flags.
pub struct Ctx {
    pub default_buffer_size: usize,
    /// Whether any event names or args were truncated.
    pub truncated: bool,
    /// Whether any events were dropped.
    pub dropped: bool,
}

impl Ctx {
    /// The default settings, with no truncation or drop recorded.
    pub fn new() -> (c: Ctx)
        ensures
            c.default_buffer_size == DEFAULT_BUFFER_SIZE,
            !c.truncated,
            !c.dropped,
    {
        Ctx { default_buffer_size: DEFAULT_BUFFER_SIZE, truncated: false, dropped: false }
    }
}

/// The fixed part of a begin record; the name and args bytes follow it.
pub struct BeginEvent {
    pub ty: u8,
    pub category: u8,
    pub pid: u32,
    pub tid: u32,
    /// Bit pattern of the `f64` timestamp.
    pub when: u64,
    pub name_length: u8,
    pub args_length: u8,
}

/// The number of bytes of the fixed part of a begin record.
pub const BEGIN_EVENT_SIZE: usize = 20;

/// The number of bytes of an end record.
pub const END_EVENT_SIZE: usize = 17;

/// The packed bytes of a begin record's fixed part.
pub open spec fn begin_event_bytes(e: BeginEvent) -> Seq<u8> {
    seq![e.ty, e.category] + spec_u32_to_le_bytes(e.pid) + spec_u32_to_le_bytes(e.tid)
        + spec_u64_to_le_bytes(e.when) + seq![e.name_length, e.args_length]
}

impl BeginEvent {
    /// The number of bytes of a begin record with a name of `name_len` bytes
    /// and args of `args_len` bytes.
    pub fn size(name_len: u8, args_len: u8) -> (r: usize)
        ensures
            r == BEGIN_EVENT_SIZE + name_len + args_len,
    {
        BEGIN_EVENT_SIZE + name_len as usize + args_len as usize
    }

    /// The packed bytes of the fixed part.
    pub fn to_bytes(&self) -> (r: Vec<u8>)
        ensures
            r@ == begin_event_bytes(*self),
            r@.len() == BEGIN_EVENT_SIZE,
            r@[0] == self.ty,
            r@[1] == self.category,
            r@.subrange(2, 6) == spec_u32_to_le_bytes(self.pid),
            r@.subrange(6, 10) == spec_u32_to_le_bytes(self.tid),
            r@.subrange(10, 18) == spec_u64_to_le_bytes(self.when),
            r@[18] == self.name_length,
            r@[19] == self.args_length,
    {
        let mut r: Vec<u8> = Vec::new();
        r.push(self.ty);
        r.push(self.category);
        let mut pid = u32_to_le_bytes(self.pid);
        r.append(&mut pid);
        let mut tid = u32_to_le_bytes(self.tid);
        r.append(&mut tid);
        let mut when = u64_to_le_bytes(self.when);
        r.append(&mut when);
        r.push(self.name_length);
        r.push(self.args_length);
        assert(r@ =~= begin_event_bytes(*self));
        proof {
            lemma_auto_spec_u32_to_from_le_bytes();
            lemma_auto_spec_u64_to_from_le_bytes();
            assert(r@.subrange(2, 6) =~= spec_u32_to_le_bytes(self.pid));
            assert(r@.subrange(6, 10) =~= spec_u32_to_le_bytes(self.tid));
            assert(r@.subrange(10, 18) =~= spec_u64_to_le_bytes(self.when));
        }
        r
    }
}

/// An end record.
pub struct EndEvent {
    pub ty: u8,
    pub pid: u32,
    pub tid: u32,
    /// Bit pattern of the `f64` timestamp.
    pub when: u64,
}

/// The packed bytes of an end record.
pub open spec fn end_event_bytes(e: EndEvent) -> Seq<u8> {
    seq![e.ty] + spec_u32_to_le_bytes(e.pid) + spec_u32_to_le_bytes(e.tid)
        + spec_u64_to_le_bytes(e.when)
}

impl EndEvent {
    /// The packed bytes of the record.
    pub fn to_bytes(&self) -> (r: Vec<u8>)
        ensures
            r@ == end_event_bytes(*self),
            r@.len() == END_EVENT_SIZE,
            r@[0] == self.ty,
            r@.subrange(1, 5) == spec_u32_to_le_bytes(self.pid),
            r@.subrange(5, 9) == spec_u32_to_le_bytes(self.tid),
            r@.subrange(9, 17) == spec_u64_to_le_bytes(self.when),
    {
        let mut r: Vec<u8> = Vec::new();
        r.push(self.ty);
        let mut pid = u32_to_le_bytes(self.pid);
        r.append(&mut pid);
        let mut tid = u32_to_le_bytes(self.tid);
        r.append(&mut tid);
        let mut when = u64_to_le_bytes(self.when);
        r.append(&mut when);
        assert(r@ =~= end_event_bytes(*self));
        proof {
            lemma_auto_spec_u32_to_from_le_bytes();
            lemma_auto_spec_u64_to_from_le_bytes();
            assert(r@.subrange(1, 5) =~= spec_u32_to_le_bytes(self.pid));
            assert(r@.subrange(5, 9) =~= spec_u32_to_le_bytes(self.tid));
            assert(r@.subrange(9, 17) =~= spec_u64_to_le_bytes(self.when));
        }
        r
    }
}

/// A record telling readers to skip `size` bytes.
pub struct PadSkipEvent {
    pub ty: u8,
    pub size: u32,
}

/// The packed bytes of a pad-skip record.
pub open spec fn pad_skip_event_bytes(e: PadSkipEvent) -> Seq<u8> {
    seq![e.ty] + spec_u32_to_le_bytes(e.size)
}

impl PadSkipEvent {
    /// The packed bytes of the record.
    pub fn to_bytes(&self) -> (r: Vec<u8>)
        ensures
            r@ == pad_skip_event_bytes(*self),
            r@.len() == 5,
            r@[0] == self.ty,
            r@.subrange(1, 5) == spec_u32_to_le_bytes(self.size),
            spec_u32_from_le_bytes(r@.subrange(1, 5)) == self.size,
    {
        let mut r: Vec<u8> = Vec::new();
        r.push(self.ty);
        let mut size = u32_to_le_bytes(self.size);
        r.append(&mut size);
        assert(r@ =~= pad_skip_event_bytes(*self));
        proof {
            lemma_auto_spec_u32_to_from_le_bytes();
            assert(r@.subrange(1, 5) =~= spec_u32_to_le_bytes(self.size));
        }
        r
    }
}

/// `n` limited to 255.
pub open spec fn trunc_len(n: nat) -> nat {
    if n > 255 {
        255
    } else {
        n
    }
}

/// The complete begin record for an event named `name` with arguments
/// `args`, each cut to 255 bytes.
pub open spec fn begin_record(pid: u32, tid: u32, when: u64, name: Seq<u8>, args: Seq<u8>) -> Seq<
    u8,
> {
    let nl = trunc_len(name.len());
    let al = trunc_len(args.len());
    begin_event_bytes(
        BeginEvent {
            ty: event_code(EventType::Begin),
            category: 0,
            pid,
            tid,
            when,
            name_length: nl as u8,
            args_length: al as u8,
        },
    ) + name.take(nl as int) + args.take(al as int)
}

/// The begin record of an event, and whether its name or args had to be
/// truncated.
pub fn begin_record_bytes(pid: u32, tid: u32, when: u64, name: &[u8], args: &[u8]) -> (r: (
    Vec<u8>,
    bool,
))
    ensures
        r.0@ == begin_record(pid, tid, when, name@, args@),
        r.0@.len() == BEGIN_EVENT_SIZE + trunc_len(name@.len()) + trunc_len(args@.len()),
        r.1 == (name@.len() > 255 || args@.len() > 255),
        r.0@[0] == 3,
        r.0@[1] == 0,
        r.0@.subrange(2, 6) == spec_u32_to_le_bytes(pid),
        r.0@.subrange(6, 10) == spec_u32_to_le_bytes(tid),
        r.0@.subrange(10, 18) == spec_u64_to_le_bytes(when),
        r.0@[18] == trunc_len(name@.len()),
        r.0@[19] == trunc_len(args@.len()),
        r.0@.subrange(20, 20 + trunc_len(name@.len()) as int) == name@.take(trunc_len(name@.len()) as int),
        r.0@.subrange(20 + trunc_len(name@.len()) as int, r.0@.len() as int) == args@.take(
            trunc_len(args@.len()) as int,
        ),
{
    let truncated = name.len() > 255 || args.len() > 255;
    let name_len = if name.len() > 255 {
        255
    } else {
        name.len()
    };
    let args_len = if args.len() > 255 {
        255
    } else {
        args.len()
    };
    let ev = BeginEvent {
        ty: EventType::Begin.code(),
        category: 0,
        pid,
        tid,
        when,
        name_length: name_len as u8,
        args_length: args_len as u8,
    };
    let mut r = ev.to_bytes();
    let ghost head = r@;
    let mut i: usize = 0;
    while i < name_len
        invariant
            0 <= i <= name_len,
            name_len <= name@.len(),
            r@ == head + name@.take(i as int),
        decreases name_len - i,
    {
        r.push(name[i]);
        i = i + 1;
        assert(r@ =~= head + name@.take(i as int));
    }
    let ghost mid = r@;
    let mut j: usize = 0;
    while j < args_len
        invariant
            0 <= j <= args_len,
            args_len <= args@.len(),
            r@ == mid + args@.take(j as int),
        decreases args_len - j,
    {
        r.push(args[j]);
        j = j + 1;
        assert(r@ =~= mid + args@.take(j as int));
    }
    assert(r@ =~= begin_record(pid, tid, when, name@, args@));
    proof {
        lemma_begin_record_layout(pid, tid, when, name@, args@);
    }
    (r, truncated)
}

/// The end record of an event.
pub fn end_record_bytes(pid: u32, tid: u32, when: u64) -> (r: Vec<u8>)
    ensures
        r@ == end_event_bytes(EndEvent { ty: event_code(EventType::End), pid, tid, when }),
        r@.len() == END_EVENT_SIZE,
        r@[0] == 4,
        r@.subrange(1, 5) == spec_u32_to_le_bytes(pid),
        r@.subrange(5, 9) == spec_u32_to_le_bytes(tid),
        r@.subrange(9, 17) == spec_u64_to_le_bytes(when),
{
    let ev = EndEvent { ty: EventType::End.code(), pid, tid, when };
    let r = ev.to_bytes();
    proof {
        lemma_end_record_layout(pid, tid, when);
    }
    r
}

/// The layout of an end record: the kind byte 4, then the process id, the
/// thread id and the timestamp bits, each little-endian.
pub proof fn lemma_end_record_layout(pid: u32, tid: u32, when: u64)
    ensures
        ({
            let r = end_event_bytes(EndEvent { ty: event_code(EventType::End), pid, tid, when });
            &&& r.len() == END_EVENT_SIZE
            &&& r[0] == 4
            &&& r.subrange(1, 5) == spec_u32_to_le_bytes(pid)
            &&& r.subrange(5, 9) == spec_u32_to_le_bytes(tid)
            &&& r.subrange(9, 17) == spec_u64_to_le_bytes(when)
            &&& spec_u32_from_le_bytes(r.subrange(1, 5)) == pid
            &&& spec_u32_from_le_bytes(r.subrange(5, 9)) == tid
            &&& spec_u64_from_le_bytes(r.subrange(9, 17)) == when
        }),
{
    lemma_auto_spec_u32_to_from_le_bytes();
    lemma_auto_spec_u64_to_from_le_bytes();
    let r = end_event_bytes(EndEvent { ty: event_code(EventType::End), pid, tid, when });
    let a = seq![4u8];
    let b = spec_u32_to_le_bytes(pid);
    let c = spec_u32_to_le_bytes(tid);
    let d = spec_u64_to_le_bytes(when);
    assert(r == a + b + c + d);
    assert(r.subrange(1, 5) =~= b);
    assert(r.subrange(5, 9) =~= c);
    assert(r.subrange(9, 17) =~= d);
}

/// The layout of a begin record: the kind byte 3, category 0, then the
/// process id, the thread id and the timestamp bits, each little-endian,
/// the name and args lengths (each cut to 255), the name bytes and the args
/// bytes. The ids and the timestamp read back to the inputs, and they sit
/// as in the end record of the same event, one byte further on.
pub proof fn lemma_begin_record_layout(pid: u32, tid: u32, when: u64, name: Seq<u8>, args: Seq<u8>)
    ensures
        ({
            let r = begin_record(pid, tid, when, name, args);
            let nl = trunc_len(name.len());
            let al = trunc_len(args.len());
            let e = end_event_bytes(EndEvent { ty: event_code(EventType::End), pid, tid, when });
            &&& r.len() == BEGIN_EVENT_SIZE + nl + al
            &&& r[0] == 3
            &&& r[1] == 0
            &&& r.subrange(2, 6) == spec_u32_to_le_bytes(pid)
            &&& r.subrange(6, 10) == spec_u32_to_le_bytes(tid)
            &&& r.subrange(10, 18) == spec_u64_to_le_bytes(when)
            &&& spec_u32_from_le_bytes(r.subrange(2, 6)) == pid
            &&& spec_u32_from_le_bytes(r.subrange(6, 10)) == tid
            &&& spec_u64_from_le_bytes(r.subrange(10, 18)) == when
            &&& r[18] == nl
            &&& r[19] == al
            &&& r.subrange(20, 20 + nl as int) == name.take(nl as int)
            &&& r.subrange(20 + nl as int, r.len() as int) == args.take(al as int)
            &&& r.subrange(2, 18) == e.subrange(1, 17)
        }),
{
    lemma_auto_spec_u32_to_from_le_bytes();
    lemma_auto_spec_u64_to_from_le_bytes();
    lemma_end_record_layout(pid, tid, when);
    let nl = trunc_len(name.len());
    let al = trunc_len(args.len());
    let r = begin_record(pid, tid, when, name, args);
    let b = spec_u32_to_le_bytes(pid);
    let c = spec_u32_to_le_bytes(tid);
    let d = spec_u64_to_le_bytes(when);
    let head = seq![3u8, 0u8] + b + c + d + seq![nl as u8, al as u8];
    let nt = name.take(nl as int);
    let at = args.take(al as int);
    assert(r == head + nt + at);
    assert(head.len() == 20);
    assert(r.subrange(2, 6) =~= b);
    assert(r.subrange(6, 10) =~= c);
    assert(r.subrange(10, 18) =~= d);
    assert(r.subrange(20, 20 + nl as int) =~= nt);
    assert(r.subrange(20 + nl as int, r.len() as int) =~= at);
    let e = end_event_bytes(EndEvent { ty: event_code(EventType::End), pid, tid, when });
    assert(e == seq![4u8] + b + c + d);
    assert(e.subrange(1, 17) =~= b + c + d);
    assert(r.subrange(2, 18) =~= b + c + d);
}

/// Where the next record goes in a buffer split into two halves: one half
/// is filled while the writer flushes the other.
pub struct BufferState {
    pub half_len: usize,
    /// Offset of the next free byte from the start of the buffer.
    pub head: usize,
    /// Free bytes left in the current half.
    pub remaining: usize,
    /// Whether the current half is the second one.
    pub top_half: bool,
}

/// What a request for room in the buffer came to.
#[derive(Debug, PartialEq, Eq, Structural)]
pub enum Reservation {
    /// The current half is full and the writer is still busy: the record is
    /// dropped.
    Dropped,
    /// The record goes at `offset`.
    Granted { offset: usize },
    /// The full half, `flush_len` bytes from `flush_offset`, goes to the
    /// writer; the record goes at `offset` in the other half.
    Swapped { flush_offset: usize, flush_len: usize, offset: usize },
}

impl BufferState {
    /// The head lies in the current half with `remaining` bytes after it.
    pub open spec fn wf(&self) -> bool {
        let start = if self.top_half {
            self.half_len as int
        } else {
            0
        };
        &&& start <= self.head
        &&& self.head + self.remaining == start + self.half_len
        &&& 2 * self.half_len <= usize::MAX
    }

    /// An empty buffer of `size` bytes, filling its first half.
    pub fn new(size: usize) -> (b: BufferState)
        ensures
            b.wf(),
            b.half_len == size / 2,
            b.head == 0,
            b.remaining == size / 2,
            !b.top_half,
    {
        BufferState { half_len: size / 2, head: 0, remaining: size / 2, top_half: false }
    }

    /// Reserves `size` bytes for a record. When the current half has no
    /// room, it is handed to the writer and filling moves to the other
    /// half, unless the writer is still busy, in which case the record is
    /// dropped.
    pub fn write(&mut self, size: usize, writer_busy: bool) -> (r: Reservation)
        requires
            old(self).wf(),
            size <= old(self).half_len,
        ensures
            final(self).wf(),
            final(self).half_len == old(self).half_len,
            old(self).remaining >= size ==> {
                &&& r == Reservation::Granted { offset: old(self).head }
                &&& final(self).head == old(self).head + size
                &&& final(self).remaining == old(self).remaining - size
                &&& final(self).top_half == old(self).top_half
            },
            old(self).remaining < size && writer_busy ==> {
                &&& r == Reservation::Dropped
                &&& *final(self) == *old(self)
            },
            old(self).remaining < size && !writer_busy ==> {
                let old_start = if old(self).top_half {
                    old(self).half_len
                } else {
                    0
                };
                let new_start = if old(self).top_half {
                    0
                } else {
                    old(self).half_len
                };
                &&& r == Reservation::Swapped {
                    flush_offset: old_start as usize,
                    flush_len: (old(self).half_len - old(self).remaining) as usize,
                    offset: new_start as usize,
                }
                &&& final(self).head == new_start + size
                &&& final(self).remaining == old(self).half_len - size
                &&& final(self).top_half == !old(self).top_half
            },
    {
        if self.remaining < size {
            if writer_busy {
                return Reservation::Dropped;
            }
            let old_offset = if self.top_half {
                self.half_len
            } else {
                0
            };
            let new_offset = if self.top_half {
                0
            } else {
                self.half_len
            };
            let flush_len = self.half_len - self.remaining;
            self.head = new_offset;
            self.remaining = self.half_len;
            self.top_half = !self.top_half;
            let offset = self.head;
            self.head = self.head + size;
            self.remaining = self.remaining - size;
            return Reservation::Swapped { flush_offset: old_offset, flush_len, offset };
        }
        let offset = self.head;
        self.head = self.head + size;
        self.remaining = self.remaining - size;
        Reservation::Granted { offset }
    }
}

/// A handle whose end closes a trace scope.
pub struct TraceScope;

} // verus!
