use vstd::prelude::*;
use crate::orders::{InputEntry, Order};
use crate::world::WorldPos;

verus! {

/// Little-endian bytes of a `u32`.
pub open spec fn u32_le(v: u32) -> Seq<u8> {
    seq![(v % 0x100) as u8, ((v / 0x100) % 0x100) as u8, ((v / 0x1_0000) % 0x100) as u8, (v / 0x100_0000) as u8]
}

/// Little-endian bytes of a `u64`.
pub open spec fn u64_le(v: u64) -> Seq<u8> {
    u32_le((v % 0x1_0000_0000) as u32) + u32_le((v / 0x1_0000_0000) as u32)
}

/// An order on disk: a tag byte (0 stop, 1 move, 2 gather, 3 attack,
/// 4 attack-move), then the target point's two coordinates or the target
/// id, little-endian.
pub open spec fn order_bytes(o: Order) -> Seq<u8> {
    match o {
        Order::Stop => seq![0u8],
        Order::Move { target } => seq![1u8] + u32_le(target.x) + u32_le(target.y),
        Order::Gather { node } => seq![2u8] + u32_le(node),
        Order::Attack { target } => seq![3u8] + u32_le(target),
        Order::AttackMove { target } => seq![4u8] + u32_le(target.x) + u32_le(target.y),
    }
}

/// An input-log entry on disk: tick (8 bytes), player (1), unit (4), order.
pub open spec fn entry_bytes(e: InputEntry) -> Seq<u8> {
    u64_le(e.tick) + seq![e.player] + u32_le(e.unit) + order_bytes(e.order)
}

/// The entries of a log, one after the other.
pub open spec fn entries_bytes(log: Seq<InputEntry>) -> Seq<u8>
    decreases log.len(),
{
    if log.len() == 0 {
        seq![]
    } else {
        entries_bytes(log.drop_last()) + entry_bytes(log.last())
    }
}

/// A replay file: the entry count as a little-endian `u32` (the low 32
/// bits of the log's length), then the entries.
pub open spec fn replay_bytes(log: Seq<InputEntry>) -> Seq<u8> {
    u32_le((log.len() % 0x1_0000_0000) as u32) + entries_bytes(log)
}


/// The little-endian `u32` at `off`.
pub open spec fn read_u32_le(b: Seq<u8>, off: int) -> u32 {
    (b[off] as int + b[off + 1] as int * 0x100 + b[off + 2] as int * 0x1_0000 + b[off + 3] as int * 0x100_0000) as u32
}

/// The little-endian `u64` at `off`.
pub open spec fn read_u64_le(b: Seq<u8>, off: int) -> u64 {
    (read_u32_le(b, off) as int + read_u32_le(b, off + 4) as int * 0x1_0000_0000) as u64
}

/// Reads an order at `off`: the order and the offset after it.
pub open spec fn decode_order(b: Seq<u8>, off: int) -> Option<(Order, int)> {
    if !(0 <= off < b.len()) {
        None
    } else if b[off] == 0 {
        Some((Order::Stop, off + 1))
    } else if b[off] == 1 && off + 9 <= b.len() {
        Some((Order::Move { target: WorldPos { x: read_u32_le(b, off + 1), y: read_u32_le(b, off + 5) } }, off + 9))
    } else if b[off] == 2 && off + 5 <= b.len() {
        Some((Order::Gather { node: read_u32_le(b, off + 1) }, off + 5))
    } else if b[off] == 3 && off + 5 <= b.len() {
        Some((Order::Attack { target: read_u32_le(b, off + 1) }, off + 5))
    } else if b[off] == 4 && off + 9 <= b.len() {
        Some((Order::AttackMove { target: WorldPos { x: read_u32_le(b, off + 1), y: read_u32_le(b, off + 5) } }, off + 9))
    } else {
        None
    }
}

/// Reads an input-log entry at `off`: the entry and the offset after it.
pub open spec fn decode_entry(b: Seq<u8>, off: int) -> Option<(InputEntry, int)> {
    if 0 <= off && off + 13 <= b.len() {
        match decode_order(b, off + 13) {
            Some((o, next)) => Some((
                InputEntry { tick: read_u64_le(b, off), player: b[off + 8], unit: read_u32_le(b, off + 9), order: o },
                next,
            )),
            None => None,
        }
    } else {
        None
    }
}

/// Reads `n` consecutive entries from `off`.
pub open spec fn decode_entries(b: Seq<u8>, off: int, n: nat) -> Option<Seq<InputEntry>>
    decreases n,
{
    if n == 0 {
        Some(seq![])
    } else {
        match decode_entry(b, off) {
            Some((e, next)) => match decode_entries(b, next, (n - 1) as nat) {
                Some(rest) => Some(seq![e] + rest),
                None => None,
            },
            None => None,
        }
    }
}

/// Reads a replay file: the count, then that many entries.
pub open spec fn decode_replay(b: Seq<u8>) -> Option<Seq<InputEntry>> {
    if b.len() >= 4 {
        decode_entries(b, 4, read_u32_le(b, 0) as nat)
    } else {
        None
    }
}

proof fn lemma_u32_le_read(b: Seq<u8>, off: int, v: u32)
    requires
        0 <= off,
        off + 4 <= b.len(),
        b.subrange(off, off + 4) == u32_le(v),
    ensures
        read_u32_le(b, off) == v,
{
    assert(b[off] == u32_le(v)[0] && b[off + 1] == u32_le(v)[1] && b[off + 2] == u32_le(v)[2] && b[off + 3] == u32_le(v)[3]);
    assert(v % 0x100 + (v / 0x100) % 0x100 * 0x100 + (v / 0x1_0000) % 0x100 * 0x1_0000 + v / 0x100_0000 * 0x100_0000
        == v) by (bit_vector);
    assert(v / 0x100_0000 < 0x100) by (bit_vector);
}

proof fn lemma_u64_le_read(b: Seq<u8>, off: int, v: u64)
    requires
        0 <= off,
        off + 8 <= b.len(),
        b.subrange(off, off + 8) == u64_le(v),
    ensures
        read_u64_le(b, off) == v,
{
    let lo = (v % 0x1_0000_0000) as u32;
    let hi = (v / 0x1_0000_0000) as u32;
    assert(b.subrange(off, off + 4) =~= u32_le(lo));
    assert(u64_le(v).subrange(4, 8) =~= u32_le(hi));
    assert(b.subrange(off + 4, off + 8) =~= b.subrange(off, off + 8).subrange(4, 8));
    lemma_u32_le_read(b, off, lo);
    lemma_u32_le_read(b, off + 4, hi);
    vstd::arithmetic::div_mod::lemma_fundamental_div_mod(v as int, 0x1_0000_0000);
}

proof fn lemma_decode_order(b: Seq<u8>, off: int, o: Order)
    requires
        0 <= off,
        off + order_bytes(o).len() <= b.len(),
        b.subrange(off, off + order_bytes(o).len()) == order_bytes(o),
    ensures
        decode_order(b, off) == Some((o, off + order_bytes(o).len())),
{
    let ob = order_bytes(o);
    assert(b[off] == ob[0]);
    match o {
        Order::Stop => {},
        Order::Move { target } | Order::AttackMove { target } => {
            assert(b.subrange(off + 1, off + 5) =~= ob.subrange(1, 5));
            assert(ob.subrange(1, 5) =~= u32_le(target.x));
            assert(b.subrange(off + 5, off + 9) =~= ob.subrange(5, 9));
            assert(ob.subrange(5, 9) =~= u32_le(target.y));
            lemma_u32_le_read(b, off + 1, target.x);
            lemma_u32_le_read(b, off + 5, target.y);
        },
        Order::Gather { node } => {
            assert(b.subrange(off + 1, off + 5) =~= ob.subrange(1, 5));
            assert(ob.subrange(1, 5) =~= u32_le(node));
            lemma_u32_le_read(b, off + 1, node);
        },
        Order::Attack { target } => {
            assert(b.subrange(off + 1, off + 5) =~= ob.subrange(1, 5));
            assert(ob.subrange(1, 5) =~= u32_le(target));
            lemma_u32_le_read(b, off + 1, target);
        },
    }
}

proof fn lemma_decode_entry(b: Seq<u8>, off: int, e: InputEntry)
    requires
        0 <= off,
        off + entry_bytes(e).len() <= b.len(),
        b.subrange(off, off + entry_bytes(e).len()) == entry_bytes(e),
    ensures
        decode_entry(b, off) == Some((e, off + entry_bytes(e).len())),
{
    let eb = entry_bytes(e);
    let ob = order_bytes(e.order);
    assert(eb.len() == 13 + ob.len());
    assert(b.subrange(off, off + 8) =~= eb.subrange(0, 8));
    assert(eb.subrange(0, 8) =~= u64_le(e.tick));
    lemma_u64_le_read(b, off, e.tick);
    assert(b[off + 8] == eb[8]);
    assert(b.subrange(off + 9, off + 13) =~= eb.subrange(9, 13));
    assert(eb.subrange(9, 13) =~= u32_le(e.unit));
    lemma_u32_le_read(b, off + 9, e.unit);
    assert(b.subrange(off + 13, off + 13 + ob.len()) =~= eb.subrange(13, 13 + ob.len() as int));
    assert(eb.subrange(13, 13 + ob.len() as int) =~= ob);
    lemma_decode_order(b, off + 13, e.order);
}

/// The entries of a log are its first entry followed by the others.
proof fn lemma_entries_bytes_front(log: Seq<InputEntry>)
    requires
        log.len() > 0,
    ensures
        entries_bytes(log) == entry_bytes(log[0]) + entries_bytes(log.drop_first()),
    decreases log.len(),
{
    if log.len() == 1 {
        assert(log.drop_last() =~= seq![]);
        assert(log.drop_first() =~= seq![]);
        assert(entries_bytes(log.drop_first()) =~= seq![]);
        assert(entries_bytes(log) =~= entry_bytes(log[0]));
    } else {
        lemma_entries_bytes_front(log.drop_last());
        assert(log.drop_last().drop_first() =~= log.drop_first().drop_last());
        assert(log.drop_last()[0] == log[0]);
        assert(log.drop_first().last() == log.last());
        assert(entries_bytes(log) =~= entry_bytes(log[0]) + entries_bytes(log.drop_first()));
    }
}

proof fn lemma_decode_entries(b: Seq<u8>, off: int, log: Seq<InputEntry>)
    requires
        0 <= off,
        off + entries_bytes(log).len() <= b.len(),
        b.subrange(off, off + entries_bytes(log).len()) == entries_bytes(log),
    ensures
        decode_entries(b, off, log.len()) == Some(log),
    decreases log.len(),
{
    if log.len() == 0 {
        assert(decode_entries(b, off, 0) == Some(Seq::<InputEntry>::empty()));
        assert(log =~= seq![]);
    } else {
        lemma_entries_bytes_front(log);
        let e = log[0];
        let el = entry_bytes(e).len() as int;
        let rest = log.drop_first();
        let all = entries_bytes(log);
        assert(b.subrange(off, off + el) =~= all.subrange(0, el));
        assert(all.subrange(0, el) =~= entry_bytes(e));
        lemma_decode_entry(b, off, e);
        assert(b.subrange(off + el, off + el + entries_bytes(rest).len()) =~= all.subrange(el, all.len() as int));
        assert(all.subrange(el, all.len() as int) =~= entries_bytes(rest));
        lemma_decode_entries(b, off + el, rest);
        assert(seq![e] + rest =~= log);
    }
}

/// A replay file reads back as the input log it was written from, for any
/// log whose length fits the `u32` count.
pub proof fn lemma_replay_decodes(log: Seq<InputEntry>)
    requires
        log.len() < 0x1_0000_0000,
    ensures
        decode_replay(replay_bytes(log)) == Some(log),
{
    let b = replay_bytes(log);
    let n = (log.len() % 0x1_0000_0000) as u32;
    assert(b.subrange(0, 4) =~= u32_le(n));
    lemma_u32_le_read(b, 0, n);
    assert(b.subrange(4, 4 + entries_bytes(log).len() as int) =~= entries_bytes(log));
    lemma_decode_entries(b, 4, log);
}

/// Distinct input logs give distinct replay files: a replay determines the
/// log it records (for logs whose length fits the `u32` count).
pub proof fn lemma_replay_injective(a: Seq<InputEntry>, b: Seq<InputEntry>)
    requires
        a.len() < 0x1_0000_0000,
        b.len() < 0x1_0000_0000,
        replay_bytes(a) == replay_bytes(b),
    ensures
        a == b,
{
    lemma_replay_decodes(a);
    lemma_replay_decodes(b);
}

fn push_u32_le(buf: &mut Vec<u8>, v: u32)
    ensures
        final(buf)@ == old(buf)@ + u32_le(v),
{
    buf.push((v % 0x100) as u8);
    buf.push(((v / 0x100) % 0x100) as u8);
    buf.push(((v / 0x1_0000) % 0x100) as u8);
    buf.push((v / 0x100_0000) as u8);
    proof {
        assert(final(buf)@ =~= old(buf)@ + u32_le(v));
    }
}

fn push_u64_le(buf: &mut Vec<u8>, v: u64)
    ensures
        final(buf)@ == old(buf)@ + u64_le(v),
{
    push_u32_le(buf, (v % 0x1_0000_0000) as u32);
    push_u32_le(buf, (v / 0x1_0000_0000) as u32);
    proof {
        assert(final(buf)@ =~= old(buf)@ + u64_le(v));
    }
}

fn push_entry(buf: &mut Vec<u8>, e: InputEntry)
    ensures
        final(buf)@ == old(buf)@ + entry_bytes(e),
{
    push_u64_le(buf, e.tick);
    buf.push(e.player);
    push_u32_le(buf, e.unit);
    match e.order {
        Order::Stop => {
            buf.push(0);
        },
        Order::Move { target } => {
            buf.push(1);
            push_u32_le(buf, target.x);
            push_u32_le(buf, target.y);
        },
        Order::Gather { node } => {
            buf.push(2);
            push_u32_le(buf, node);
        },
        Order::Attack { target } => {
            buf.push(3);
            push_u32_le(buf, target);
        },
        Order::AttackMove { target } => {
            buf.push(4);
            push_u32_le(buf, target.x);
            push_u32_le(buf, target.y);
        },
    }
    proof {
        assert(final(buf)@ =~= old(buf)@ + entry_bytes(e));
    }
}

/// The replay file of an input log, byte for byte as [`replay_bytes`]
/// describes it.
pub fn encode_replay(log: &[InputEntry]) -> (r: Vec<u8>)
    ensures
        r@ == replay_bytes(log@),
{
    let mut buf: Vec<u8> = Vec::new();
    let count = ((log.len() as u64) % 0x1_0000_0000) as u32;
    push_u32_le(&mut buf, count);
    let ghost head = buf@;
    let mut i: usize = 0;
    proof {
        assert(log@.take(0) =~= seq![]);
        assert(buf@ =~= head + entries_bytes(log@.take(0)));
    }
    while i < log.len()
        invariant
            i <= log@.len(),
            head == u32_le((log@.len() % 0x1_0000_0000) as u32),
            buf@ == head + entries_bytes(log@.take(i as int)),
        decreases log@.len() - i,
    {
        push_entry(&mut buf, log[i]);
        proof {
            assert(log@.take(i + 1).drop_last() =~= log@.take(i as int));
            assert(buf@ =~= head + entries_bytes(log@.take(i + 1)));
        }
        i = i + 1;
    }
    proof {
        assert(log@.take(log@.len() as int) =~= log@);
    }
    buf
}

} // verus!
