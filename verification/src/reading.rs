//! Readings: what one device reported at one moment, and the integer key
//! under which a device's hardware address is stored.

use vstd::prelude::*;

verus! {

/// The measurements of one reading. Each is present or absent on its own:
/// an absent value is never written as zero.
#[derive(Clone, Copy, Debug, PartialEq, Eq)]
pub struct Fields {
    /// Temperature in thousandths of a degree Celsius.
    pub temperature: Option<i32>,
    /// Relative humidity in parts per million.
    pub humidity: Option<u32>,
    /// Pressure in pascals.
    pub pressure: Option<u32>,
    /// Battery potential in millivolts.
    pub battery: Option<u16>,
    /// Transmitter power in dBm.
    pub tx_power: Option<i8>,
    /// Number of movements the device has counted.
    pub movement: Option<u32>,
    /// Sequence number of the measurement.
    pub sequence: Option<u32>,
}

/// One timestamped set of measurements from one device.
#[derive(Clone, Copy, Debug, PartialEq, Eq)]
pub struct Reading {
    /// Hardware address of the device.
    pub device_id: [u8; 6],
    /// Seconds since the epoch at which the reading was taken in.
    pub observed_at: u64,
    /// What the device measured.
    pub fields: Fields,
}

/// The number that the bytes of `digits` spell in base 256, most significant first.
pub open spec fn big_endian(digits: Seq<u8>) -> nat
    decreases digits.len(),
{
    if digits.len() == 0 {
        0
    } else {
        big_endian(digits.drop_last()) * 256 + digits.last() as nat
    }
}

/// The six bytes of `id` read as one big-endian number.
pub open spec fn device_key(id: [u8; 6]) -> u64 {
    big_endian(id@) as u64
}

impl Fields {
    /// No measurement at all.
    pub fn empty() -> (fields: Fields)
        ensures
            fields == (Fields {
                temperature: None,
                humidity: None,
                pressure: None,
                battery: None,
                tx_power: None,
                movement: None,
                sequence: None,
            }),
    {
        Fields {
            temperature: None,
            humidity: None,
            pressure: None,
            battery: None,
            tx_power: None,
            movement: None,
            sequence: None,
        }
    }
}

impl Reading {
    /// The key of this reading's device.
    pub open spec fn key(&self) -> u64 {
        device_key(self.device_id)
    }
}

/// A number of `digits.len()` bytes is below 256 to that power.
pub proof fn lemma_big_endian_bound(digits: Seq<u8>)
    requires
        digits.len() <= 6,
    ensures
        digits.len() == 0 ==> big_endian(digits) == 0,
        digits.len() == 1 ==> big_endian(digits) < 0x100,
        digits.len() == 2 ==> big_endian(digits) < 0x1_0000,
        digits.len() == 3 ==> big_endian(digits) < 0x100_0000,
        digits.len() == 4 ==> big_endian(digits) < 0x1_0000_0000,
        digits.len() == 5 ==> big_endian(digits) < 0x100_0000_0000,
        digits.len() == 6 ==> big_endian(digits) < 0x1_0000_0000_0000,
    decreases digits.len(),
{
    if digits.len() > 0 {
        lemma_big_endian_bound(digits.drop_last());
    }
}

/// Two byte strings of one length that spell the same number are equal.
pub proof fn lemma_big_endian_injective(a: Seq<u8>, b: Seq<u8>)
    requires
        a.len() == b.len(),
        big_endian(a) == big_endian(b),
    ensures
        a == b,
    decreases a.len(),
{
    if a.len() > 0 {
        let x = big_endian(a.drop_last());
        let y = big_endian(b.drop_last());
        assert(x * 256 + a.last() as nat == y * 256 + b.last() as nat);
        assert(x == y);
        lemma_big_endian_injective(a.drop_last(), b.drop_last());
        assert(a =~= a.drop_last().push(a.last()));
        assert(b =~= b.drop_last().push(b.last()));
    } else {
        assert(a =~= b);
    }
}

/// Two addresses with one key hold the same bytes.
pub proof fn lemma_key_injective(a: [u8; 6], b: [u8; 6])
    requires
        device_key(a) == device_key(b),
    ensures
        a@ == b@,
{
    lemma_big_endian_bound(a@);
    lemma_big_endian_bound(b@);
    lemma_big_endian_injective(a@, b@);
}

/// Computes the key of a hardware address.
pub fn key_of(id: &[u8; 6]) -> (key: u64)
    ensures
        key == device_key(*id),
        key < 0x1_0000_0000_0000,
{
    let mut key: u64 = 0;
    let mut i: usize = 0;
    while i < 6
        invariant
            i <= 6,
            key == big_endian(id@.take(i as int)),
        decreases 6 - i,
    {
        proof {
            lemma_big_endian_bound(id@.take(i as int));
            assert(id@.take(i + 1).drop_last() =~= id@.take(i as int));
        }
        key = key * 256 + id[i] as u64;
        i += 1;
    }
    proof {
        assert(id@.take(6) =~= id@);
        lemma_big_endian_bound(id@);
    }
    key
}

} // verus!
