//! Point-in-time read-only views of a world, and their versioned byte
//! layout.

use vstd::prelude::*;
use crate::organism::OrganismModel;

verus! {

/// What a snapshot shows of one living organism.
#[derive(Clone, Copy, Debug, PartialEq, Eq, Structural)]
pub struct OrganismSummary {
    pub id: u64,
    pub x: u32,
    pub y: u32,
    pub energy: u64,
    pub age: u64,
    pub appetite: u32,
    pub wander: u32,
}

/// A copy of a world's state at one tick; it shares nothing with the world.
#[derive(Debug, PartialEq, Eq)]
pub struct Snapshot {
    pub tick: u64,
    pub total_resource: u64,
    pub organisms: Vec<OrganismSummary>,
}

pub ghost struct SnapshotModel {
    pub tick: u64,
    pub total_resource: u64,
    pub organisms: Seq<OrganismSummary>,
}

impl View for Snapshot {
    type V = SnapshotModel;

    open spec fn view(&self) -> SnapshotModel {
        SnapshotModel { tick: self.tick, total_resource: self.total_resource, organisms: self.organisms@ }
    }
}

pub open spec fn summary_of(o: OrganismModel) -> OrganismSummary {
    OrganismSummary {
        id: o.id,
        x: o.x,
        y: o.y,
        energy: o.energy,
        age: o.age,
        appetite: o.genes[0].value,
        wander: o.genes[1].value,
    }
}

/// Version written in the first field of every saved snapshot.
pub const FORMAT_VERSION: u64 = 1;

/// Bytes before the first organism record: version, tick, total resource
/// and organism count, eight bytes each.
pub const HEADER_LEN: usize = 32;

/// Bytes of one organism record: seven fields of eight bytes.
pub const RECORD_LEN: usize = 56;

/// Why a byte sequence is not a saved snapshot.
#[derive(Clone, Copy, Debug, PartialEq, Eq, Structural)]
pub enum FormatError {
    /// Too short to hold the version or the rest of the header.
    Truncated,
    /// The version field holds a version this library does not read.
    UnknownVersion,
    /// The length disagrees with the organism count.
    LengthMismatch,
    /// A 32-bit field of a record holds a larger value.
    FieldOutOfRange,
}

/// The little-endian 64-bit value of the eight bytes at `at`.
pub open spec fn read_u64(b: Seq<u8>, at: int) -> u64 {
    (b[at] as u64) | ((b[at + 1] as u64) << 8u64) | ((b[at + 2] as u64) << 16u64) | ((b[at + 3] as u64)
        << 24u64) | ((b[at + 4] as u64) << 32u64) | ((b[at + 5] as u64) << 40u64) | ((b[at + 6] as u64)
        << 48u64) | ((b[at + 7] as u64) << 56u64)
}

/// Field `f` of a record: id, x, y, energy, age, appetite, wander.
pub open spec fn record_field(o: OrganismSummary, f: int) -> u64 {
    if f == 0 {
        o.id
    } else if f == 1 {
        o.x as u64
    } else if f == 2 {
        o.y as u64
    } else if f == 3 {
        o.energy
    } else if f == 4 {
        o.age
    } else if f == 5 {
        o.appetite as u64
    } else {
        o.wander as u64
    }
}

/// Position of field `f` of record `i`.
pub open spec fn field_at(i: int, f: int) -> int {
    HEADER_LEN + RECORD_LEN * i + 8 * f
}

/// `b` is the saved form of `s`: the header, then one record per organism,
/// every field a little-endian 64-bit value.
pub open spec fn encodes(b: Seq<u8>, s: SnapshotModel) -> bool {
    &&& b.len() == HEADER_LEN + RECORD_LEN * s.organisms.len()
    &&& read_u64(b, 0) == FORMAT_VERSION
    &&& read_u64(b, 8) == s.tick
    &&& read_u64(b, 16) == s.total_resource
    &&& read_u64(b, 24) == s.organisms.len()
    &&& forall|i: int, f: int|
        0 <= i < s.organisms.len() && 0 <= f < 7 ==> #[trigger] read_u64(b, field_at(i, f))
            == record_field(s.organisms[i], f)
}

pub open spec fn record_ok(b: Seq<u8>, i: int) -> bool {
    &&& read_u64(b, field_at(i, 1)) <= u32::MAX
    &&& read_u64(b, field_at(i, 2)) <= u32::MAX
    &&& read_u64(b, field_at(i, 5)) <= u32::MAX
    &&& read_u64(b, field_at(i, 6)) <= u32::MAX
}

pub open spec fn decoded_record(b: Seq<u8>, i: int) -> OrganismSummary {
    OrganismSummary {
        id: read_u64(b, field_at(i, 0)),
        x: read_u64(b, field_at(i, 1)) as u32,
        y: read_u64(b, field_at(i, 2)) as u32,
        energy: read_u64(b, field_at(i, 3)),
        age: read_u64(b, field_at(i, 4)),
        appetite: read_u64(b, field_at(i, 5)) as u32,
        wander: read_u64(b, field_at(i, 6)) as u32,
    }
}

/// The error loading `b` fails with, checked in this order; `None` when `b`
/// is a well-formed saved snapshot.
pub open spec fn format_error(b: Seq<u8>) -> Option<FormatError> {
    if b.len() < 8 {
        Some(FormatError::Truncated)
    } else if read_u64(b, 0) != FORMAT_VERSION {
        Some(FormatError::UnknownVersion)
    } else if b.len() < HEADER_LEN {
        Some(FormatError::Truncated)
    } else if b.len() != HEADER_LEN + RECORD_LEN * read_u64(b, 24) {
        Some(FormatError::LengthMismatch)
    } else if exists|i: int| 0 <= i < read_u64(b, 24) && !#[trigger] record_ok(b, i) {
        Some(FormatError::FieldOutOfRange)
    } else {
        None
    }
}

/// The snapshot a well-formed `b` holds.
pub open spec fn decoded(b: Seq<u8>) -> SnapshotModel {
    SnapshotModel {
        tick: read_u64(b, 8),
        total_resource: read_u64(b, 16),
        organisms: Seq::new(read_u64(b, 24) as nat, |i: int| decoded_record(b, i)),
    }
}

proof fn lemma_bytes_of(v: u64, b0: u8, b1: u8, b2: u8, b3: u8, b4: u8, b5: u8, b6: u8, b7: u8)
    requires
        b0 == (v & 0xff) as u8,
        b1 == ((v >> 8u64) & 0xff) as u8,
        b2 == ((v >> 16u64) & 0xff) as u8,
        b3 == ((v >> 24u64) & 0xff) as u8,
        b4 == ((v >> 32u64) & 0xff) as u8,
        b5 == ((v >> 40u64) & 0xff) as u8,
        b6 == ((v >> 48u64) & 0xff) as u8,
        b7 == ((v >> 56u64) & 0xff) as u8,
    ensures
        (b0 as u64) | ((b1 as u64) << 8u64) | ((b2 as u64) << 16u64) | ((b3 as u64) << 24u64) | ((b4 as u64)
            << 32u64) | ((b5 as u64) << 40u64) | ((b6 as u64) << 48u64) | ((b7 as u64) << 56u64) == v,
{
    assert((b0 as u64) | ((b1 as u64) << 8u64) | ((b2 as u64) << 16u64) | ((b3 as u64) << 24u64) | ((b4 as u64)
        << 32u64) | ((b5 as u64) << 40u64) | ((b6 as u64) << 48u64) | ((b7 as u64) << 56u64) == v)
        by (bit_vector)
        requires
            b0 == (v & 0xff) as u8,
            b1 == ((v >> 8u64) & 0xff) as u8,
            b2 == ((v >> 16u64) & 0xff) as u8,
            b3 == ((v >> 24u64) & 0xff) as u8,
            b4 == ((v >> 32u64) & 0xff) as u8,
            b5 == ((v >> 40u64) & 0xff) as u8,
            b6 == ((v >> 48u64) & 0xff) as u8,
            b7 == ((v >> 56u64) & 0xff) as u8,
    ;
}

fn push_u64(b: &mut Vec<u8>, v: u64)
    ensures
        final(b)@.len() == old(b)@.len() + 8,
        forall|k: int| 0 <= k < old(b)@.len() ==> #[trigger] final(b)@[k] == old(b)@[k],
        read_u64(final(b)@, old(b)@.len() as int) == v,
{
    let b0 = (v & 0xff) as u8;
    let b1 = ((v >> 8u64) & 0xff) as u8;
    let b2 = ((v >> 16u64) & 0xff) as u8;
    let b3 = ((v >> 24u64) & 0xff) as u8;
    let b4 = ((v >> 32u64) & 0xff) as u8;
    let b5 = ((v >> 40u64) & 0xff) as u8;
    let b6 = ((v >> 48u64) & 0xff) as u8;
    let b7 = ((v >> 56u64) & 0xff) as u8;
    proof {
        lemma_bytes_of(v, b0, b1, b2, b3, b4, b5, b6, b7);
    }
    b.push(b0);
    b.push(b1);
    b.push(b2);
    b.push(b3);
    b.push(b4);
    b.push(b5);
    b.push(b6);
    b.push(b7);
}

fn get_u64(b: &Vec<u8>, at: usize) -> (v: u64)
    requires
        at + 8 <= b@.len(),
    ensures
        v == read_u64(b@, at as int),
{
    // The length is a `usize`, so `at + 7` cannot overflow.
    let _len = b.len();
    (b[at] as u64) | ((b[at + 1] as u64) << 8u64) | ((b[at + 2] as u64) << 16u64) | ((b[at + 3] as u64)
        << 24u64) | ((b[at + 4] as u64) << 32u64) | ((b[at + 5] as u64) << 40u64) | ((b[at + 6] as u64)
        << 48u64) | ((b[at + 7] as u64) << 56u64)
}

/// Loading what was saved gives back the same snapshot.
pub proof fn lemma_round_trip(b: Seq<u8>, s: SnapshotModel)
    requires
        encodes(b, s),
    ensures
        format_error(b) == None::<FormatError>,
        decoded(b) == s,
{
    assert forall|i: int| 0 <= i < read_u64(b, 24) implies #[trigger] record_ok(b, i) by {
        assert(read_u64(b, field_at(i, 1)) == record_field(s.organisms[i], 1));
        assert(read_u64(b, field_at(i, 2)) == record_field(s.organisms[i], 2));
        assert(read_u64(b, field_at(i, 5)) == record_field(s.organisms[i], 5));
        assert(read_u64(b, field_at(i, 6)) == record_field(s.organisms[i], 6));
    }
    assert forall|i: int| 0 <= i < s.organisms.len() implies #[trigger] decoded_record(b, i) == s.organisms[i] by {
        assert(read_u64(b, field_at(i, 0)) == record_field(s.organisms[i], 0));
        assert(read_u64(b, field_at(i, 1)) == record_field(s.organisms[i], 1));
        assert(read_u64(b, field_at(i, 2)) == record_field(s.organisms[i], 2));
        assert(read_u64(b, field_at(i, 3)) == record_field(s.organisms[i], 3));
        assert(read_u64(b, field_at(i, 4)) == record_field(s.organisms[i], 4));
        assert(read_u64(b, field_at(i, 5)) == record_field(s.organisms[i], 5));
        assert(read_u64(b, field_at(i, 6)) == record_field(s.organisms[i], 6));
    }
    assert(decoded(b).organisms =~= s.organisms);
}

proof fn lemma_read_injective(x: Seq<u8>, y: Seq<u8>, at: int, k: int)
    requires
        0 <= at,
        at + 8 <= x.len(),
        at + 8 <= y.len(),
        read_u64(x, at) == read_u64(y, at),
        0 <= k < 8,
    ensures
        x[at + k] == y[at + k],
{
    let (x0, x1, x2, x3, x4, x5, x6, x7) = (x[at], x[at + 1], x[at + 2], x[at + 3], x[at + 4], x[at + 5], x[at + 6], x[at + 7]);
    let (y0, y1, y2, y3, y4, y5, y6, y7) = (y[at], y[at + 1], y[at + 2], y[at + 3], y[at + 4], y[at + 5], y[at + 6], y[at + 7]);
    assert(x0 == y0 && x1 == y1 && x2 == y2 && x3 == y3 && x4 == y4 && x5 == y5 && x6 == y6 && x7 == y7)
        by (bit_vector)
        requires
            (x0 as u64) | ((x1 as u64) << 8u64) | ((x2 as u64) << 16u64) | ((x3 as u64) << 24u64) | ((x4 as u64)
                << 32u64) | ((x5 as u64) << 40u64) | ((x6 as u64) << 48u64) | ((x7 as u64) << 56u64) == (y0 as u64)
                | ((y1 as u64) << 8u64) | ((y2 as u64) << 16u64) | ((y3 as u64) << 24u64) | ((y4 as u64) << 32u64)
                | ((y5 as u64) << 40u64) | ((y6 as u64) << 48u64) | ((y7 as u64) << 56u64),
    ;
}

/// A snapshot has exactly one saved form.
pub proof fn lemma_encoding_unique(b1: Seq<u8>, b2: Seq<u8>, s: SnapshotModel)
    requires
        encodes(b1, s),
        encodes(b2, s),
    ensures
        b1 == b2,
{
    let n = s.organisms.len();
    assert forall|k: int| 0 <= k < b1.len() implies b1[k] == b2[k] by {
        if k < 8 {
            lemma_read_injective(b1, b2, 0, k);
        } else if k < 16 {
            lemma_read_injective(b1, b2, 8, k - 8);
        } else if k < 24 {
            lemma_read_injective(b1, b2, 16, k - 16);
        } else if k < 32 {
            lemma_read_injective(b1, b2, 24, k - 24);
        } else {
            let i = (k - 32) / 56;
            let r = (k - 32) % 56;
            let f = r / 8;
            let off = r % 8;
            assert(k - 32 == 56 * i + r && 0 <= r < 56);
            assert(r == 8 * f + off && 0 <= off < 8 && 0 <= f < 7);
            assert(0 <= i < n) by (nonlinear_arith)
                requires
                    k - 32 == 56 * i + r,
                    0 <= r < 56,
                    k - 32 >= 0,
                    k < 32 + 56 * n,
            ;
            assert(k == field_at(i, f) + off);
            assert(read_u64(b1, field_at(i, f)) == record_field(s.organisms[i], f));
            assert(read_u64(b2, field_at(i, f)) == record_field(s.organisms[i], f));
            lemma_read_injective(b1, b2, field_at(i, f), off);
        }
    }
    assert(b1 =~= b2);
}

fn push_record(b: &mut Vec<u8>, o: OrganismSummary)
    ensures
        final(b)@.len() == old(b)@.len() + RECORD_LEN,
        forall|k: int| 0 <= k < old(b)@.len() ==> #[trigger] final(b)@[k] == old(b)@[k],
        forall|f: int| 0 <= f < 7 ==> read_u64(final(b)@, old(b)@.len() + 8 * f) == #[trigger] record_field(o, f),
{
    let ghost b0 = b@;
    push_u64(b, o.id);
    let ghost b1 = b@;
    push_u64(b, o.x as u64);
    let ghost b2 = b@;
    push_u64(b, o.y as u64);
    let ghost b3 = b@;
    push_u64(b, o.energy);
    let ghost b4 = b@;
    push_u64(b, o.age);
    let ghost b5 = b@;
    push_u64(b, o.appetite as u64);
    let ghost b6 = b@;
    push_u64(b, o.wander as u64);
    proof {
        let n = b0.len() as int;
        assert(read_u64(b@, n) == read_u64(b1, n));
        assert(read_u64(b@, n + 8) == read_u64(b2, n + 8));
        assert(read_u64(b@, n + 16) == read_u64(b3, n + 16));
        assert(read_u64(b@, n + 24) == read_u64(b4, n + 24));
        assert(read_u64(b@, n + 32) == read_u64(b5, n + 32));
        assert(read_u64(b@, n + 40) == read_u64(b6, n + 40));
        assert forall|f: int| 0 <= f < 7 implies read_u64(b@, n + 8 * f) == #[trigger] record_field(o, f) by {
            if f == 0 {
            } else if f == 1 {
            } else if f == 2 {
            } else if f == 3 {
            } else if f == 4 {
            } else if f == 5 {
            } else {
            }
        }
    }
}

/// The versioned byte form of a snapshot.
pub fn save(s: &Snapshot) -> (b: Vec<u8>)
    ensures
        encodes(b@, s@),
{
    let mut b: Vec<u8> = Vec::new();
    push_u64(&mut b, FORMAT_VERSION);
    let ghost h0 = b@;
    push_u64(&mut b, s.tick);
    let ghost h1 = b@;
    push_u64(&mut b, s.total_resource);
    let ghost h2 = b@;
    push_u64(&mut b, s.organisms.len() as u64);
    proof {
        assert(read_u64(b@, 0) == read_u64(h0, 0));
        assert(read_u64(b@, 8) == read_u64(h1, 8));
        assert(read_u64(b@, 16) == read_u64(h2, 16));
    }
    let ghost header = b@;
    let mut i: usize = 0;
    while i < s.organisms.len()
        invariant
            i <= s.organisms@.len(),
            b@.len() == HEADER_LEN + RECORD_LEN * i,
            forall|k: int| 0 <= k < HEADER_LEN ==> #[trigger] b@[k] == header[k],
            header.len() == HEADER_LEN,
            read_u64(header, 0) == FORMAT_VERSION,
            read_u64(header, 8) == s.tick,
            read_u64(header, 16) == s.total_resource,
            read_u64(header, 24) == s.organisms@.len(),
            forall|j: int, f: int|
                0 <= j < i && 0 <= f < 7 ==> #[trigger] read_u64(b@, field_at(j, f)) == record_field(
                    s.organisms@[j],
                    f,
                ),
        decreases s.organisms@.len() - i,
    {
        let ghost before = b@;
        push_record(&mut b, s.organisms[i]);
        proof {
            assert forall|j: int, f: int| 0 <= j < i + 1 && 0 <= f < 7 implies #[trigger] read_u64(
                b@,
                field_at(j, f),
            ) == record_field(s.organisms@[j], f) by {
                if j < i {
                    assert(read_u64(b@, field_at(j, f)) == read_u64(before, field_at(j, f)));
                } else {
                    assert(field_at(j, f) == before.len() + 8 * f);
                    assert(read_u64(b@, before.len() + 8 * f) == record_field(s.organisms@[j], f));
                }
            }
        }
        i += 1;
    }
    proof {
        assert(read_u64(b@, 0) == read_u64(header, 0));
        assert(read_u64(b@, 8) == read_u64(header, 8));
        assert(read_u64(b@, 16) == read_u64(header, 16));
        assert(read_u64(b@, 24) == read_u64(header, 24));
    }
    b
}

/// Reads a saved snapshot back; bytes that are not one are rejected with the
/// first problem found.
pub fn load(b: &Vec<u8>) -> (r: Result<Snapshot, FormatError>)
    ensures
        r.is_ok() <==> format_error(b@) == None::<FormatError>,
        r matches Ok(s) ==> s@ == decoded(b@),
        r matches Err(e) ==> format_error(b@) == Some(e),
{
    let len = b.len();
    if len < 8 {
        return Err(FormatError::Truncated);
    }
    if get_u64(b, 0) != FORMAT_VERSION {
        return Err(FormatError::UnknownVersion);
    }
    if len < HEADER_LEN {
        return Err(FormatError::Truncated);
    }
    let tick = get_u64(b, 8);
    let total = get_u64(b, 16);
    let count = get_u64(b, 24);
    let rest = len - HEADER_LEN;
    if rest % RECORD_LEN != 0 || (rest / RECORD_LEN) as u64 != count {
        assert(b@.len() != HEADER_LEN + RECORD_LEN * read_u64(b@, 24));
        return Err(FormatError::LengthMismatch);
    }
    let n: usize = rest / RECORD_LEN;
    assert(b@.len() == HEADER_LEN + RECORD_LEN * n);
    let mut orgs: Vec<OrganismSummary> = Vec::new();
    let mut i: usize = 0;
    while i < n
        invariant
            i <= n,
            n == count,
            count == read_u64(b@, 24),
            read_u64(b@, 0) == FORMAT_VERSION,
            tick == read_u64(b@, 8),
            total == read_u64(b@, 16),
            len == b@.len(),
            b@.len() == HEADER_LEN + RECORD_LEN * n,
            forall|j: int| 0 <= j < i ==> #[trigger] record_ok(b@, j),
            orgs@ =~= Seq::new(i as nat, |j: int| decoded_record(b@, j)),
        decreases n - i,
    {
        let at: usize = HEADER_LEN + RECORD_LEN * i;
        let id = get_u64(b, at);
        let x = get_u64(b, at + 8);
        let y = get_u64(b, at + 16);
        let energy = get_u64(b, at + 24);
        let age = get_u64(b, at + 32);
        let appetite = get_u64(b, at + 40);
        let wander = get_u64(b, at + 48);
        proof {
            assert(at == field_at(i as int, 0));
            assert(at + 8 == field_at(i as int, 1));
            assert(at + 16 == field_at(i as int, 2));
            assert(at + 24 == field_at(i as int, 3));
            assert(at + 32 == field_at(i as int, 4));
            assert(at + 40 == field_at(i as int, 5));
            assert(at + 48 == field_at(i as int, 6));
        }
        if x > u32::MAX as u64 || y > u32::MAX as u64 || appetite > u32::MAX as u64 || wander
            > u32::MAX as u64 {
            assert(!record_ok(b@, i as int));
            assert(exists|j: int| 0 <= j < read_u64(b@, 24) && !#[trigger] record_ok(b@, j));
            assert(format_error(b@) == Some(FormatError::FieldOutOfRange));
            return Err(FormatError::FieldOutOfRange);
        }
        orgs.push(
            OrganismSummary {
                id,
                x: x as u32,
                y: y as u32,
                energy,
                age,
                appetite: appetite as u32,
                wander: wander as u32,
            },
        );
        i += 1;
    }
    let s = Snapshot { tick, total_resource: total, organisms: orgs };
    assert(s@.organisms =~= decoded(b@).organisms);
    Ok(s)
}

} // verus!
