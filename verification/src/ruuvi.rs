//! Measurements as a beacon's advertisement gives them, and the text in which
//! they are published.

use crate::reading::{Fields, Reading};
use crate::text::{
    decimal, hex_lower, push_decimal, push_hex_lower, push_signed_decimal, signed_decimal,
};
use ruuvi_sensor_protocol::{
    BatteryPotential, Humidity, MacAddress, MeasurementSequenceNumber, MovementCounter,
    Pressure, Temperature, TransmitterPower,
};
use std::collections::HashMap;
use std::time::{Duration, SystemTime, SystemTimeError, UNIX_EPOCH};
use vstd::prelude::*;
use vstd::string::StringExecFns;

verus! {

/// What one advertisement carried: the sender's hardware address, where the
/// format has one, and its measurements.
#[derive(Clone, Copy, Debug, PartialEq, Eq)]
pub struct SensorValues {
    pub mac_address: Option<[u8; 6]>,
    pub fields: Fields,
}

/// One measurement of a beacon, with the time at which it was received.
#[derive(Clone, Copy, Debug, PartialEq, Eq)]
pub struct Measurement {
    /// Seconds since the epoch.
    pub timestamp: u64,
    /// Whether the measurement has been handed on for publication.
    pub published: bool,
    pub values: SensorValues,
}

/// The manufacturer id under which the beacons advertise.
pub const MANUFACTURER_DATA_ID: u16 = 0x0499;

/// What the sensor protocol's parser makes of a payload advertised under
/// the manufacturer id `id`.
pub uninterp spec fn decoded_payload(id: u16, payload: Seq<u8>) -> Option<SensorValues>;

/// Calls `ruuvi_sensor_protocol::SensorValues::from_manufacturer_specific_data`
/// and copies out the address and the measurements; a payload that the
/// parser refuses gives nothing. The contract only gives the outcome its
/// name: the parser is a function of the id and the payload's bytes.
#[verifier::external_body]
fn decode_payload(id: u16, payload: &[u8]) -> (decoded: Option<SensorValues>)
    ensures
        decoded == decoded_payload(id, payload@),
{
    match ruuvi_sensor_protocol::SensorValues::from_manufacturer_specific_data(id, payload) {
        Ok(v) => Some(SensorValues {
            mac_address: v.mac_address(),
            fields: Fields {
                temperature: v.temperature_as_millicelsius(),
                humidity: v.humidity_as_ppm(),
                pressure: v.pressure_as_pascals(),
                battery: v.battery_potential_as_millivolts(),
                tx_power: v.tx_power_as_dbm(),
                movement: v.movement_counter(),
                sequence: v.measurement_sequence_number(),
            },
        }),
        Err(_) => None,
    }
}

/// `std::time::SystemTime`, a reading of the system clock. Its value is
/// carried through and never looked into.
#[verifier::external_type_specification]
#[verifier::external_body]
pub struct ExSystemTime(SystemTime);

/// `std::time::SystemTimeError`, the error of a clock that stands before the
/// moment it is compared with. Its value is never looked into.
#[verifier::external_type_specification]
#[verifier::external_body]
pub struct ExSystemTimeError(SystemTimeError);

/// Calls `SystemTime::now`. Nothing is claimed of the clock's reading.
#[verifier::external_body]
fn system_now() -> SystemTime {
    SystemTime::now()
}

/// Calls `SystemTime::duration_since` with the epoch as the earlier moment.
/// Nothing is claimed of the outcome: the clock may stand before the epoch.
#[verifier::external_body]
fn since_epoch(moment: &SystemTime) -> Result<Duration, SystemTimeError> {
    moment.duration_since(UNIX_EPOCH)
}

/// Calls `Duration::as_secs`. Nothing is claimed of the number.
#[verifier::external_body]
fn whole_seconds(elapsed: &Duration) -> u64 {
    elapsed.as_secs()
}

/// The measurement that a decoded payload gives at the moment `timestamp`:
/// none where decoding failed.
pub open spec fn measured(decoded: Option<SensorValues>, timestamp: u64) -> Option<Measurement> {
    match decoded {
        Some(values) => Some(Measurement { timestamp, published: false, values }),
        None => None,
    }
}

/// The measurement that an advertisement gives at the moment `timestamp`:
/// none where it carries no data under the beacons' manufacturer id, or data
/// that cannot be decoded.
pub open spec fn advertised(data: Map<u16, Vec<u8>>, timestamp: u64) -> Option<Measurement> {
    if data.contains_key(MANUFACTURER_DATA_ID) {
        measured(decoded_payload(MANUFACTURER_DATA_ID, data[MANUFACTURER_DATA_ID]@), timestamp)
    } else {
        None
    }
}

/// The timestamp for a clock reading: the seconds read, or zero where the
/// clock could not be read.
pub open spec fn timestamp_or_zero(seconds: Option<u64>) -> u64 {
    match seconds {
        Some(s) => s,
        None => 0,
    }
}

/// Decodes the payload that a beacon advertised.
pub fn decode(payload: &[u8]) -> (decoded: Option<SensorValues>)
    ensures
        decoded == decoded_payload(MANUFACTURER_DATA_ID, payload@),
{
    decode_payload(MANUFACTURER_DATA_ID, payload)
}

/// Makes a fresh, unpublished measurement of what was decoded, or nothing
/// where decoding failed: such an advertisement is skipped.
pub fn measurement_of(decoded: Option<SensorValues>, timestamp: u64) -> (measurement: Option<
    Measurement,
>)
    ensures
        measurement == measured(decoded, timestamp),
{
    match decoded {
        Some(values) => Some(Measurement { timestamp, published: false, values }),
        None => None,
    }
}

/// Picks the beacons' data out of an advertisement's manufacturer data and
/// makes a measurement of it, received at `timestamp`.
pub fn measurement_from_advertisement(
    manufacturer_data: &HashMap<u16, Vec<u8>>,
    timestamp: u64,
) -> (measurement: Option<Measurement>)
    ensures
        measurement == advertised(manufacturer_data@, timestamp),
{
    broadcast use vstd::std_specs::hash::group_hash_axioms;

    match manufacturer_data.get(&MANUFACTURER_DATA_ID) {
        Some(payload) => measurement_of(decode(payload.as_slice()), timestamp),
        None => None,
    }
}

/// Reads the system clock: the whole seconds since the epoch, or nothing
/// where the clock stands before the epoch.
pub fn clock_seconds() -> Option<u64> {
    let now = system_now();
    match since_epoch(&now) {
        Ok(elapsed) => Some(whole_seconds(&elapsed)),
        Err(_) => None,
    }
}

/// The timestamp for a clock reading. A clock that cannot be read is no
/// error: the timestamp is then zero.
pub fn timestamp_of(seconds: Option<u64>) -> (timestamp: u64)
    ensures
        timestamp == timestamp_or_zero(seconds),
{
    match seconds {
        Some(s) => s,
        None => 0,
    }
}

/// The present time in seconds since the epoch, or zero where the clock
/// cannot be read.
pub fn unix_time() -> u64 {
    timestamp_of(clock_seconds())
}

impl Measurement {
    /// The reading that this measurement is, where it names its device.
    pub open spec fn as_reading(&self) -> Option<Reading> {
        match self.values.mac_address {
            Some(device_id) => Some(
                Reading { device_id, observed_at: self.timestamp, fields: self.values.fields },
            ),
            None => None,
        }
    }

    /// The measurement that stands for `reading`.
    pub open spec fn of_reading(reading: Reading, published: bool) -> Measurement {
        Measurement {
            timestamp: reading.observed_at,
            published,
            values: SensorValues {
                mac_address: Some(reading.device_id),
                fields: reading.fields,
            },
        }
    }

    /// The reading to take in for this measurement. A measurement without a
    /// hardware address names no device and gives none.
    pub fn reading(&self) -> (reading: Option<Reading>)
        ensures
            reading == self.as_reading(),
    {
        match self.values.mac_address {
            Some(device_id) => Some(
                Reading { device_id, observed_at: self.timestamp, fields: self.values.fields },
            ),
            None => None,
        }
    }

    /// The measurement that stands for `reading`, for publication.
    pub fn from_reading(reading: &Reading, published: bool) -> (measurement: Measurement)
        ensures
            measurement == Measurement::of_reading(*reading, published),
            measurement.as_reading() == Some(*reading),
    {
        Measurement {
            timestamp: reading.observed_at,
            published,
            values: SensorValues {
                mac_address: Some(reading.device_id),
                fields: reading.fields,
            },
        }
    }
}

/// `text` between double quotes.
pub open spec fn quoted(text: Seq<char>) -> Seq<char> {
    seq!['"'] + text + seq!['"']
}

/// One member of a JSON object: the quoted name, a colon, and the quoted
/// value, or `null` where there is none.
pub open spec fn json_member(name: Seq<char>, value: Option<Seq<char>>) -> Seq<char> {
    quoted(name) + seq![':'] + match value {
        Some(text) => quoted(text),
        None => seq!['n', 'u', 'l', 'l'],
    }
}

/// The text of a hardware address: each byte in lower-case hexadecimal
/// without leading zero, each followed by a colon.
pub open spec fn mac_text(bytes: Seq<u8>) -> Seq<char>
    decreases bytes.len(),
{
    if bytes.len() == 0 {
        seq![]
    } else {
        mac_text(bytes.drop_last()) + hex_lower(bytes.last()) + seq![':']
    }
}

/// The decimal numeral of a value that may be absent.
pub open spec fn decimal_of(value: Option<int>) -> Option<Seq<char>> {
    match value {
        Some(v) => Some(signed_decimal(v)),
        None => None,
    }
}

/// The text of a hardware address that may be absent.
pub open spec fn mac_text_of(mac: Option<[u8; 6]>) -> Option<Seq<char>> {
    match mac {
        Some(bytes) => Some(mac_text(bytes@)),
        None => None,
    }
}

/// A value that may be absent, widened to `int`.
pub open spec fn widened_u32(value: Option<u32>) -> Option<int> {
    match value {
        Some(v) => Some(v as int),
        None => None,
    }
}

impl Fields {
    pub open spec fn temperature_int(&self) -> Option<int> {
        match self.temperature {
            Some(v) => Some(v as int),
            None => None,
        }
    }

    pub open spec fn battery_int(&self) -> Option<int> {
        match self.battery {
            Some(v) => Some(v as int),
            None => None,
        }
    }

    pub open spec fn tx_power_int(&self) -> Option<int> {
        match self.tx_power {
            Some(v) => Some(v as int),
            None => None,
        }
    }
}

impl Measurement {
    /// The JSON object in which a measurement is published: the members
    /// `time`, `mac`, `temperature`, `humidity`, `pressure`, `battery`,
    /// `movement`, `sq` and `tx`, in this order, every value a string or
    /// `null`.
    pub open spec fn json(&self) -> Seq<char> {
        seq!['{'] + json_member("time"@, Some(decimal(self.timestamp as nat))) + seq![',']
            + json_member("mac"@, mac_text_of(self.values.mac_address)) + seq![','] + json_member(
            "temperature"@,
            decimal_of(self.values.fields.temperature_int()),
        ) + seq![','] + json_member("humidity"@, decimal_of(widened_u32(self.values.fields.humidity)))
            + seq![','] + json_member(
            "pressure"@,
            decimal_of(widened_u32(self.values.fields.pressure)),
        ) + seq![','] + json_member("battery"@, decimal_of(self.values.fields.battery_int()))
            + seq![','] + json_member(
            "movement"@,
            decimal_of(widened_u32(self.values.fields.movement)),
        ) + seq![','] + json_member("sq"@, decimal_of(widened_u32(self.values.fields.sequence)))
            + seq![','] + json_member("tx"@, decimal_of(self.values.fields.tx_power_int()))
            + seq!['}']
    }
}

/// Appends the quoted name of a member and its colon.
fn push_name(out: &mut String, name: &str)
    ensures
        final(out)@ == old(out)@ + quoted(name@) + seq![':'],
{
    proof {
        reveal_strlit("\"");
        reveal_strlit("\":");
    }
    out.append("\"");
    out.append(name);
    out.append("\":");
}

/// Appends a member whose value is a number or absent.
fn push_number_member(out: &mut String, name: &str, value: Option<i64>)
    requires
        value matches Some(v) ==> -0x8000_0000 <= v <= 0xffff_ffff,
    ensures
        final(out)@ == old(out)@ + json_member(
            name@,
            decimal_of(
                match value {
                    Some(v) => Some(v as int),
                    None => None,
                },
            ),
        ),
{
    push_name(out, name);
    match value {
        Some(v) => {
            proof {
                reveal_strlit("\"");
            }
            out.append("\"");
            if v < 0 {
                push_signed_decimal(out, v as i32);
            } else {
                push_decimal(out, v as u64);
            }
            out.append("\"");
        },
        None => {
            proof {
                reveal_strlit("null");
            }
            out.append("null");
        },
    }
}

/// Appends the text of a hardware address.
fn push_mac_text(out: &mut String, mac: &[u8; 6])
    ensures
        final(out)@ == old(out)@ + mac_text(mac@),
{
    let mut i: usize = 0;
    while i < 6
        invariant
            i <= 6,
            out@ == old(out)@ + mac_text(mac@.take(i as int)),
        decreases 6 - i,
    {
        proof {
            reveal_strlit(":");
            assert(mac@.take(i + 1).drop_last() =~= mac@.take(i as int));
        }
        push_hex_lower(out, mac[i]);
        out.append(":");
        i += 1;
    }
    assert(mac@.take(6) =~= mac@);
}

/// Appends the member `mac`.
fn push_mac_member(out: &mut String, mac: Option<[u8; 6]>)
    ensures
        final(out)@ == old(out)@ + json_member("mac"@, mac_text_of(mac)),
{
    push_name(out, "mac");
    match mac {
        Some(bytes) => {
            proof {
                reveal_strlit("\"");
            }
            out.append("\"");
            push_mac_text(out, &bytes);
            out.append("\"");
        },
        None => {
            proof {
                reveal_strlit("null");
            }
            out.append("null");
        },
    }
}

/// Widens a value that may be absent.
fn wide_u32(value: Option<u32>) -> (wide: Option<i64>)
    ensures
        wide == match value {
            Some(v) => Some(v as i64),
            None => None::<i64>,
        },
{
    match value {
        Some(v) => Some(v as i64),
        None => None,
    }
}

/// Appends the member `time`.
fn push_time_member(out: &mut String, timestamp: u64)
    ensures
        final(out)@ == old(out)@ + json_member("time"@, Some(decimal(timestamp as nat))),
{
    push_name(out, "time");
    proof {
        reveal_strlit("\"");
    }
    out.append("\"");
    push_decimal(out, timestamp);
    out.append("\"");
}

/// Appends a comma.
fn push_comma(out: &mut String)
    ensures
        final(out)@ == old(out)@ + seq![','],
{
    proof {
        reveal_strlit(",");
    }
    out.append(",");
}

impl Measurement {
    /// Formats the measurement as the JSON object that is published.
    pub fn to_string(&self) -> (text: String)
        ensures
            text@ == self.json(),
    {
        proof {
            reveal_strlit("{");
            reveal_strlit("}");
        }
        let fields = self.values.fields;
        let mut out = String::new();
        out.append("{");
        let ghost upto_time = seq!['{'] + json_member(
            "time"@,
            Some(decimal(self.timestamp as nat)),
        );
        push_time_member(&mut out, self.timestamp);
        assert(out@ == upto_time);
        push_comma(&mut out);
        push_mac_member(&mut out, self.values.mac_address);
        let ghost upto_mac = upto_time + seq![','] + json_member(
            "mac"@,
            mac_text_of(self.values.mac_address),
        );
        assert(out@ == upto_mac);
        push_comma(&mut out);
        let temperature = match fields.temperature {
            Some(v) => Some(v as i64),
            None => None,
        };
        push_number_member(&mut out, "temperature", temperature);
        let ghost upto_temperature = upto_mac + seq![','] + json_member(
            "temperature"@,
            decimal_of(fields.temperature_int()),
        );
        assert(out@ == upto_temperature);
        push_comma(&mut out);
        push_number_member(&mut out, "humidity", wide_u32(fields.humidity));
        let ghost upto_humidity = upto_temperature + seq![','] + json_member(
            "humidity"@,
            decimal_of(widened_u32(fields.humidity)),
        );
        assert(out@ == upto_humidity);
        push_comma(&mut out);
        push_number_member(&mut out, "pressure", wide_u32(fields.pressure));
        let ghost upto_pressure = upto_humidity + seq![','] + json_member(
            "pressure"@,
            decimal_of(widened_u32(fields.pressure)),
        );
        assert(out@ == upto_pressure);
        push_comma(&mut out);
        let battery = match fields.battery {
            Some(v) => Some(v as i64),
            None => None,
        };
        push_number_member(&mut out, "battery", battery);
        let ghost upto_battery = upto_pressure + seq![','] + json_member(
            "battery"@,
            decimal_of(fields.battery_int()),
        );
        assert(out@ == upto_battery);
        push_comma(&mut out);
        push_number_member(&mut out, "movement", wide_u32(fields.movement));
        let ghost upto_movement = upto_battery + seq![','] + json_member(
            "movement"@,
            decimal_of(widened_u32(fields.movement)),
        );
        assert(out@ == upto_movement);
        push_comma(&mut out);
        push_number_member(&mut out, "sq", wide_u32(fields.sequence));
        let ghost upto_sequence = upto_movement + seq![','] + json_member(
            "sq"@,
            decimal_of(widened_u32(fields.sequence)),
        );
        assert(out@ == upto_sequence);
        push_comma(&mut out);
        let tx = match fields.tx_power {
            Some(v) => Some(v as i64),
            None => None,
        };
        push_number_member(&mut out, "tx", tx);
        let ghost upto_tx = upto_sequence + seq![','] + json_member(
            "tx"@,
            decimal_of(fields.tx_power_int()),
        );
        assert(out@ == upto_tx);
        assert(self.json() == upto_tx + seq!['}']);
        out.append("}");
        out
    }
}

} // verus!
