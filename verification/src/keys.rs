//! Encoding of logical keys, a table and an index, into the byte strings
//! under which the store files the records.

use crate::table::Table;
use vstd::prelude::*;

verus! {

/// The `width` lowest base-256 digits of `x`, least significant first.
pub open spec fn le_bytes(x: nat, width: nat) -> Seq<u8>
    decreases width,
{
    if width == 0 {
        Seq::empty()
    } else {
        seq![(x % 256) as u8] + le_bytes(x / 256, (width - 1) as nat)
    }
}

/// The `width` lowest base-256 digits of `x`, most significant first.
pub open spec fn be_bytes(x: nat, width: nat) -> Seq<u8>
    decreases width,
{
    if width == 0 {
        Seq::empty()
    } else {
        be_bytes(x / 256, (width - 1) as nat).push((x % 256) as u8)
    }
}

/// What is left of `x` above its `width` lowest base-256 digits.
pub open spec fn above(x: nat, width: nat) -> nat
    decreases width,
{
    if width == 0 {
        x
    } else {
        above(x / 256, (width - 1) as nat)
    }
}

/// Numbers that agree on their lowest digits and above them are equal.
pub proof fn lemma_le_bytes_injective(x: nat, y: nat, width: nat)
    requires
        le_bytes(x, width) == le_bytes(y, width),
        above(x, width) == above(y, width),
    ensures
        x == y,
    decreases width,
{
    if width > 0 {
        let w = (width - 1) as nat;
        let a = seq![(x % 256) as u8] + le_bytes(x / 256, w);
        let b = seq![(y % 256) as u8] + le_bytes(y / 256, w);
        assert(a[0] == b[0]);
        assert(le_bytes(x / 256, w) =~= a.subrange(1, a.len() as int));
        assert(le_bytes(y / 256, w) =~= b.subrange(1, b.len() as int));
        lemma_le_bytes_injective(x / 256, y / 256, w);
    }
}

/// The same for the digits written most significant first.
pub proof fn lemma_be_bytes_injective(x: nat, y: nat, width: nat)
    requires
        be_bytes(x, width) == be_bytes(y, width),
        above(x, width) == above(y, width),
    ensures
        x == y,
    decreases width,
{
    if width > 0 {
        let w = (width - 1) as nat;
        let a = be_bytes(x / 256, w).push((x % 256) as u8);
        let b = be_bytes(y / 256, w).push((y % 256) as u8);
        assert(a.last() == b.last());
        assert(be_bytes(x / 256, w) =~= a.drop_last());
        assert(be_bytes(y / 256, w) =~= b.drop_last());
        lemma_be_bytes_injective(x / 256, y / 256, w);
    }
}

pub proof fn lemma_le_bytes_len(x: nat, width: nat)
    ensures
        le_bytes(x, width).len() == width,
    decreases width,
{
    if width > 0 {
        lemma_le_bytes_len(x / 256, (width - 1) as nat);
    }
}

pub proof fn lemma_be_bytes_len(x: nat, width: nat)
    ensures
        be_bytes(x, width).len() == width,
    decreases width,
{
    if width > 0 {
        lemma_be_bytes_len(x / 256, (width - 1) as nat);
    }
}

/// A 64-bit number has nothing above its eight lowest digits.
pub proof fn lemma_u64_fits_eight(x: u64)
    ensures
        above(x as nat, 8) == 0,
{
    reveal_with_fuel(above, 9);
}

/// The eight bytes of `x`, least significant first.
pub fn u64_le_bytes(x: u64) -> (bytes: Vec<u8>)
    ensures
        bytes@ == le_bytes(x as nat, 8),
{
    let x1: u64 = x / 256;
    let x2: u64 = x1 / 256;
    let x3: u64 = x2 / 256;
    let x4: u64 = x3 / 256;
    let x5: u64 = x4 / 256;
    let x6: u64 = x5 / 256;
    let x7: u64 = x6 / 256;
    let mut bytes: Vec<u8> = Vec::with_capacity(8);
    bytes.push((x % 256) as u8);
    bytes.push((x1 % 256) as u8);
    bytes.push((x2 % 256) as u8);
    bytes.push((x3 % 256) as u8);
    bytes.push((x4 % 256) as u8);
    bytes.push((x5 % 256) as u8);
    bytes.push((x6 % 256) as u8);
    bytes.push((x7 % 256) as u8);
    proof {
        reveal_with_fuel(le_bytes, 9);
        assert(bytes@ =~= le_bytes(x as nat, 8));
    }
    bytes
}

/// The eight bytes of `x`, most significant first.
pub fn u64_be_bytes(x: u64) -> (bytes: Vec<u8>)
    ensures
        bytes@ == be_bytes(x as nat, 8),
{
    let x1: u64 = x / 256;
    let x2: u64 = x1 / 256;
    let x3: u64 = x2 / 256;
    let x4: u64 = x3 / 256;
    let x5: u64 = x4 / 256;
    let x6: u64 = x5 / 256;
    let x7: u64 = x6 / 256;
    let mut bytes: Vec<u8> = Vec::with_capacity(8);
    bytes.push((x7 % 256) as u8);
    bytes.push((x6 % 256) as u8);
    bytes.push((x5 % 256) as u8);
    bytes.push((x4 % 256) as u8);
    bytes.push((x3 % 256) as u8);
    bytes.push((x2 % 256) as u8);
    bytes.push((x1 % 256) as u8);
    bytes.push((x % 256) as u8);
    proof {
        reveal_with_fuel(be_bytes, 9);
        assert(bytes@ =~= be_bytes(x as nat, 8));
    }
    bytes
}

/// The bytes of a text whose characters are all ASCII.
pub open spec fn ascii_bytes(text: Seq<char>) -> Seq<u8> {
    Seq::new(text.len(), |i: int| text[i] as u8)
}

/// The tag that opens every tagged key of a table: the table's name and a
/// hyphen.
pub open spec fn tag(table: Table) -> Seq<u8> {
    ascii_bytes(table.name()).push(45u8)
}

/// How the keys of the three tables are kept apart.
#[derive(Clone, Copy, Debug)]
pub enum KeyCodec {
    /// One namespace for each table. A key is the table's tag followed by the
    /// index, least significant byte first.
    Tagged,
    /// One namespace shared by all tables. A key is a single counter, most
    /// significant byte first, so that keys ascend as the counter does. The
    /// small records take the counter's first `small` values, the ballast
    /// records the next `ballast`, the large records what follows.
    Flat { small: u64, ballast: u64 },
}

impl KeyCodec {
    /// The counter value of a table's first record. Zero where keys are
    /// tagged.
    pub open spec fn base(self, table: Table) -> nat {
        match self {
            KeyCodec::Tagged => 0,
            KeyCodec::Flat { small, ballast } => match table {
                Table::Small => 0,
                Table::Ballast => small as nat,
                Table::Large => (small + ballast) as nat,
            },
        }
    }

    /// The counter value of the record `index` of `table`.
    pub open spec fn counter(self, table: Table, index: u64) -> nat {
        self.base(table) + index as nat
    }

    /// The counter stays within 64 bits.
    pub open spec fn fits(self, table: Table, index: u64) -> bool {
        self.counter(table, index) <= u64::MAX
    }

    /// The index lies in the range that the layout gives to the table.
    pub open spec fn admits(self, table: Table, index: u64) -> bool {
        match self {
            KeyCodec::Tagged => true,
            KeyCodec::Flat { small, ballast } => match table {
                Table::Small => index < small,
                Table::Ballast => index < ballast && self.fits(table, index),
                Table::Large => self.fits(table, index),
            },
        }
    }

    /// The key of the record `index` of `table`.
    pub open spec fn key(self, table: Table, index: u64) -> Seq<u8> {
        match self {
            KeyCodec::Tagged => tag(table) + le_bytes(index as nat, 8),
            KeyCodec::Flat { .. } => be_bytes(self.counter(table, index), 8),
        }
    }

    /// The name of the namespace that holds the table's records.
    pub open spec fn namespace_name(self, table: Table) -> Seq<char> {
        match self {
            KeyCodec::Tagged => table.name(),
            KeyCodec::Flat { .. } => "data"@,
        }
    }

    /// Whether successive indices of one table give ascending keys, as the
    /// store asks of records that are appended.
    pub open spec fn ascending(self) -> bool {
        self is Flat
    }

    pub fn namespace(&self, table: Table) -> (name: &'static str)
        ensures
            name@ == self.namespace_name(table),
    {
        match self {
            KeyCodec::Tagged => table.as_str(),
            KeyCodec::Flat { .. } => "data",
        }
    }

    pub fn is_ascending(&self) -> (yes: bool)
        ensures
            yes == self.ascending(),
    {
        match self {
            KeyCodec::Tagged => false,
            KeyCodec::Flat { .. } => true,
        }
    }

    /// Whether `index` can be encoded for `table` at all.
    pub fn can_encode(&self, table: Table, index: u64) -> (yes: bool)
        ensures
            yes == self.fits(table, index),
    {
        match self {
            KeyCodec::Tagged => true,
            KeyCodec::Flat { small, ballast } => match table {
                Table::Small => true,
                Table::Ballast => index <= u64::MAX - *small,
                Table::Large => *ballast <= u64::MAX - *small && index <= u64::MAX - *small
                    - *ballast,
            },
        }
    }

    /// Encodes the key of the record `index` of `table`.
    pub fn encode(&self, table: Table, index: u64) -> (key: Vec<u8>)
        requires
            self.fits(table, index),
        ensures
            key@ == self.key(table, index),
    {
        match self {
            KeyCodec::Tagged => {
                let mut key = tag_bytes(table);
                let mut digits = u64_le_bytes(index);
                key.append(&mut digits);
                key
            },
            KeyCodec::Flat { small, ballast } => {
                let base: u64 = match table {
                    Table::Small => 0,
                    Table::Ballast => *small,
                    Table::Large => *small + *ballast,
                };
                u64_be_bytes(base + index)
            },
        }
    }
}

/// The tag of a table as bytes.
pub fn tag_bytes(table: Table) -> (bytes: Vec<u8>)
    ensures
        bytes@ == tag(table),
{
    proof {
        reveal_strlit("small");
        reveal_strlit("large");
        reveal_strlit("ballast");
    }
    let name = table.as_str();
    assert(name.is_ascii());
    let mut bytes: Vec<u8> = Vec::new();
    let n: usize = name.unicode_len();
    let mut i: usize = 0;
    while i < n
        invariant
            n == name@.len(),
            name.is_ascii(),
            i <= n,
            bytes@ == ascii_bytes(name@.subrange(0, i as int)),
        decreases n - i,
    {
        let b: u8 = name.get_ascii(i);
        bytes.push(b);
        i += 1;
        assert(bytes@ =~= ascii_bytes(name@.subrange(0, i as int)));
    }
    assert(name@.subrange(0, n as int) =~= name@);
    bytes.push(45u8);
    bytes
}

/// Keys are injective: within the ranges that the layout admits, two records
/// have the same key only if they are the same record of the same table.
pub proof fn lemma_key_injective(codec: KeyCodec, t1: Table, i1: u64, t2: Table, i2: u64)
    requires
        codec.admits(t1, i1),
        codec.admits(t2, i2),
        codec.key(t1, i1) == codec.key(t2, i2),
    ensures
        t1 == t2,
        i1 == i2,
{
    match codec {
        KeyCodec::Tagged => {
            lemma_tagged_split(t1, i1, t2, i2);
            lemma_u64_fits_eight(i1);
            lemma_u64_fits_eight(i2);
            lemma_le_bytes_injective(i1 as nat, i2 as nat, 8);
        },
        KeyCodec::Flat { small, ballast } => {
            let c1 = codec.counter(t1, i1);
            let c2 = codec.counter(t2, i2);
            lemma_u64_fits_eight(c1 as u64);
            lemma_u64_fits_eight(c2 as u64);
            lemma_be_bytes_injective(c1, c2, 8);
        },
    }
}

/// The order in which the store keeps its keys: byte by byte, and a key
/// before every longer key that begins with it.
pub open spec fn key_less(a: Seq<u8>, b: Seq<u8>) -> bool {
    ||| a.len() < b.len() && a == b.subrange(0, a.len() as int)
    ||| exists|p: int|
        0 <= p < a.len() && p < b.len() && a.subrange(0, p) == b.subrange(0, p) && a[p] < b[p]
}

/// Written most significant byte first, the smaller number is the smaller
/// key.
pub proof fn lemma_be_bytes_ascend(x: nat, y: nat, width: nat)
    requires
        x < y,
        above(x, width) == above(y, width),
    ensures
        key_less(be_bytes(x, width), be_bytes(y, width)),
    decreases width,
{
    if width > 0 {
        let w = (width - 1) as nat;
        let a = be_bytes(x, width);
        let b = be_bytes(y, width);
        let a0 = be_bytes(x / 256, w);
        let b0 = be_bytes(y / 256, w);
        lemma_be_bytes_len(x / 256, w);
        lemma_be_bytes_len(y / 256, w);
        if x / 256 < y / 256 {
            lemma_be_bytes_ascend(x / 256, y / 256, w);
            let p = choose|p: int|
                0 <= p < a0.len() && p < b0.len() && a0.subrange(0, p) == b0.subrange(0, p)
                    && a0[p] < b0[p];
            assert(a.subrange(0, p) =~= a0.subrange(0, p));
            assert(b.subrange(0, p) =~= b0.subrange(0, p));
            assert(a[p] == a0[p] && b[p] == b0[p]);
        } else {
            let p = w as int;
            assert(x / 256 == y / 256);
            assert(a.subrange(0, p) =~= a0);
            assert(b.subrange(0, p) =~= b0);
            assert(a[p] < b[p]);
        }
    }
}

/// The order in which a run writes to the tables.
pub open spec fn written_before(t1: Table, t2: Table) -> bool {
    match (t1, t2) {
        (Table::Small, Table::Ballast) => true,
        (Table::Small, Table::Large) => true,
        (Table::Ballast, Table::Large) => true,
        _ => false,
    }
}

/// In a shared namespace the keys ascend in the order in which the records
/// are written: one table after the other, and each table's records by
/// their index. So every record can be appended.
pub proof fn lemma_flat_keys_ascend(codec: KeyCodec, t1: Table, i1: u64, t2: Table, i2: u64)
    requires
        codec is Flat,
        codec.admits(t1, i1),
        codec.admits(t2, i2),
        written_before(t1, t2) || (t1 == t2 && i1 < i2),
    ensures
        key_less(codec.key(t1, i1), codec.key(t2, i2)),
{
    let c1 = codec.counter(t1, i1);
    let c2 = codec.counter(t2, i2);
    lemma_u64_fits_eight(c1 as u64);
    lemma_u64_fits_eight(c2 as u64);
    lemma_be_bytes_ascend(c1, c2, 8);
}

/// Two tagged keys that are equal have the same tag and the same digits.
proof fn lemma_tagged_split(t1: Table, i1: u64, t2: Table, i2: u64)
    requires
        tag(t1) + le_bytes(i1 as nat, 8) == tag(t2) + le_bytes(i2 as nat, 8),
    ensures
        t1 == t2,
        le_bytes(i1 as nat, 8) == le_bytes(i2 as nat, 8),
{
    reveal_strlit("small");
    reveal_strlit("large");
    reveal_strlit("ballast");
    let k1 = tag(t1) + le_bytes(i1 as nat, 8);
    let k2 = tag(t2) + le_bytes(i2 as nat, 8);
    lemma_le_bytes_len(i1 as nat, 8);
    lemma_le_bytes_len(i2 as nat, 8);
    assert(k1.len() == tag(t1).len() + 8);
    assert(k2.len() == tag(t2).len() + 8);
    assert(tag(t1).len() == tag(t2).len());
    assert(k1[0] == tag(t1)[0]);
    assert(k2[0] == tag(t2)[0]);
    assert(tag(Table::Small)[0] == 115u8);
    assert(tag(Table::Large)[0] == 108u8);
    assert(t1 == t2);
    let n = tag(t1).len() as int;
    assert(le_bytes(i1 as nat, 8) =~= k1.subrange(n, k1.len() as int));
    assert(le_bytes(i2 as nat, 8) =~= k2.subrange(n, k2.len() as int));
}

} // verus!
