//! Camera geometries, the 8-byte event record, and the bit-level decoding of
//! records into polarity, coordinates and timestamp.

use vstd::prelude::*;

verus! {

/// The two supported sensor models.
#[derive(Debug, Clone, Copy, PartialEq, Eq, Structural)]
pub enum CameraType {
    DVS128,
    DAVIS240,
}

/// Pixel-grid width of a sensor model.
pub open spec fn camera_width(t: CameraType) -> u8 {
    match t {
        CameraType::DVS128 => 128,
        CameraType::DAVIS240 => 240,
    }
}

/// Pixel-grid height of a sensor model.
pub open spec fn camera_height(t: CameraType) -> u8 {
    match t {
        CameraType::DVS128 => 128,
        CameraType::DAVIS240 => 180,
    }
}

/// A sensor model together with its fixed pixel-grid dimensions.
pub struct CameraParameters {
    pub camera_type: CameraType,
    pub camera_x: u8,
    pub camera_y: u8,
}

impl CameraParameters {
    /// The dimensions that belong to a camera type.
    pub fn new(camera_type: CameraType) -> (cam: CameraParameters)
        ensures
            cam.camera_type == camera_type,
            cam.camera_x == camera_width(camera_type),
            cam.camera_y == camera_height(camera_type),
    {
        match camera_type {
            CameraType::DVS128 => CameraParameters {
                camera_type,
                camera_x: 128,
                camera_y: 128,
            },
            CameraType::DAVIS240 => CameraParameters {
                camera_type,
                camera_x: 240,
                camera_y: 180,
            },
        }
    }

    /// The stored dimensions agree with the stored camera type.
    pub open spec fn wf(self) -> bool {
        self.camera_x == camera_width(self.camera_type) && self.camera_y == camera_height(
            self.camera_type,
        )
    }
}

/// One fixed-length binary event record, exactly as it sits in the file.
pub struct Event {
    pub bytes: [u8; 8],
}

/// The polarity bit of a record: bit 0 of byte 3 for DVS128, bit 3 of byte 2
/// for DAVIS240.
pub open spec fn polarity_of(e: Event, t: CameraType) -> bool {
    match t {
        CameraType::DVS128 => (e.bytes[3] & 1) == 1,
        CameraType::DAVIS240 => ((e.bytes[2] >> 3) & 1) == 1,
    }
}

/// Bytes 4..8 of a record read as a big-endian 32-bit unsigned value.
pub open spec fn timestamp_bits(e: Event) -> int {
    e.bytes[7] + e.bytes[6] * 0x100 + e.bytes[5] * 0x1_0000 + e.bytes[4] * 0x100_0000
}

/// The timestamp of a record: `timestamp_bits` reinterpreted as a signed
/// 32-bit value (two's complement).
pub open spec fn timestamp_of(e: Event) -> int {
    if timestamp_bits(e) < 0x8000_0000 {
        timestamp_bits(e)
    } else {
        timestamp_bits(e) - 0x1_0000_0000
    }
}

/// The raw 7-bit X field of a DVS128 record.
pub open spec fn dvs128_x_field(e: Event) -> u8 {
    (e.bytes[3] >> 1) & 0x7f
}

/// The raw 7-bit Y field of a DVS128 record.
pub open spec fn dvs128_y_field(e: Event) -> u8 {
    e.bytes[2] & 0x7f
}

/// The raw 8-bit X field of a DAVIS240 record, spread over bytes 1 and 2.
pub open spec fn davis240_x_field(e: Event) -> u8 {
    (((e.bytes[1] << 4) & 0xf0) + ((e.bytes[2] >> 4) & 0x0f)) as u8
}

/// The raw 7-bit Y field of a DAVIS240 record, spread over bytes 0 and 1.
pub open spec fn davis240_y_field(e: Event) -> u8 {
    (((e.bytes[0] << 2) & 0x7c) + ((e.bytes[1] >> 6) & 0x03)) as u8
}

/// The decoded X coordinate: the grid width minus the raw field, wrapping
/// modulo 256 where the DAVIS240 field exceeds the width.
pub open spec fn x_of(e: Event, t: CameraType) -> int {
    match t {
        CameraType::DVS128 => 128 - dvs128_x_field(e),
        CameraType::DAVIS240 => (496 - davis240_x_field(e)) % 256,
    }
}

/// The decoded Y coordinate: the grid height minus the raw field, which for
/// both models always lands inside the grid.
pub open spec fn y_of(e: Event, t: CameraType) -> int {
    match t {
        CameraType::DVS128 => 128 - dvs128_y_field(e),
        CameraType::DAVIS240 => 180 - davis240_y_field(e),
    }
}

/// A record decodes to an X coordinate inside the grid. For DVS128 this holds
/// of every record; a DAVIS240 record wraps when its raw X field exceeds 239.
pub open spec fn x_in_frame(e: Event, t: CameraType) -> bool {
    match t {
        CameraType::DVS128 => true,
        CameraType::DAVIS240 => davis240_x_field(e) <= 239,
    }
}

impl Event {
    /// Extracts the polarity bit of the record.
    pub fn get_polarity(&self, cam_type: &CameraType) -> (p: bool)
        ensures
            p == polarity_of(*self, *cam_type),
    {
        match cam_type {
            CameraType::DVS128 => (self.bytes[3] & 1) == 1,
            CameraType::DAVIS240 => ((self.bytes[2] >> 3) & 1) == 1,
        }
    }

    /// Reads bytes 4..8 as a big-endian value and reinterprets it as signed.
    pub fn get_timestamp(&self) -> (t: i32)
        ensures
            t as int == timestamp_of(*self),
    {
        let b7 = self.bytes[7] as u32;
        let b6 = self.bytes[6] as u32;
        let b5 = self.bytes[5] as u32;
        let b4 = self.bytes[4] as u32;
        proof {
            assert((b6 << 8) == b6 * 0x100 && (b5 << 16) == b5 * 0x1_0000 && (b4 << 24) == b4
                * 0x100_0000) by (bit_vector)
                requires
                    b6 < 0x100 && b5 < 0x100 && b4 < 0x100,
            ;
        }
        let bits: u32 = b7 + (b6 << 8) + (b5 << 16) + (b4 << 24);
        if bits < 0x8000_0000 {
            bits as i32
        } else {
            ((bits as i64) - 0x1_0000_0000i64) as i32
        }
    }

    /// Decodes the X and Y coordinates of the record under a camera geometry.
    pub fn get_coords(&self, cam_type: &CameraType) -> (xy: (u8, u8))
        ensures
            xy.0 as int == x_of(*self, *cam_type),
            xy.1 as int == y_of(*self, *cam_type),
    {
        match cam_type {
            CameraType::DVS128 => {
                let b3 = self.bytes[3];
                let b2 = self.bytes[2];
                let xf = (b3 >> 1) & 0x7f;
                let yf = b2 & 0x7f;
                proof {
                    assert(((b3 >> 1) & 0x7f) < 128 && (b2 & 0x7f) < 128) by (bit_vector);
                }
                (128 - xf, 128 - yf)
            },
            CameraType::DAVIS240 => {
                let b0 = self.bytes[0];
                let b1 = self.bytes[1];
                let b2 = self.bytes[2];
                let xh = (b1 << 4) & 0xf0;
                let xl = (b2 >> 4) & 0x0f;
                let yh = (b0 << 2) & 0x7c;
                let yl = (b1 >> 6) & 0x03;
                proof {
                    assert(((b1 << 4) & 0xf0) + ((b2 >> 4) & 0x0f) < 256) by (bit_vector);
                    assert(((b0 << 2) & 0x7c) + ((b1 >> 6) & 0x03) <= 127) by (bit_vector);
                }
                let xf: u8 = xh + xl;
                let yf: u8 = yh + yl;
                let x: u8 = if xf <= 239 {
                    240 - xf
                } else if xf == 240 {
                    0
                } else {
                    (496u16 - (xf as u16)) as u8
                };
                (x, 180 - yf)
            },
        }
    }
}

/// Every record decodes to coordinates inside the camera's pixel grid,
/// provided its X field does not wrap: `1 <= x <= width` and
/// `1 <= y <= height`. For DVS128 there is no proviso at all.
pub proof fn lemma_decoded_coords_in_frame(e: Event, t: CameraType)
    requires
        x_in_frame(e, t),
    ensures
        1 <= x_of(e, t) <= camera_width(t),
        1 <= y_of(e, t) <= camera_height(t),
{
    let b0 = e.bytes[0];
    let b1 = e.bytes[1];
    let b2 = e.bytes[2];
    let b3 = e.bytes[3];
    match t {
        CameraType::DVS128 => {
            assert(((b3 >> 1) & 0x7f) < 128 && (b2 & 0x7f) < 128) by (bit_vector);
        },
        CameraType::DAVIS240 => {
            assert(((b0 << 2) & 0x7c) + ((b1 >> 6) & 0x03) <= 127) by (bit_vector);
        },
    }
}

/// The number of whole 8-byte records that follow the header.
pub open spec fn event_count(file: Seq<u8>, start: int) -> int {
    if start <= file.len() {
        (file.len() - start) / 8
    } else {
        0
    }
}

/// The bytes of the `k`-th record after the header.
pub open spec fn record_at(file: Seq<u8>, start: int, k: int) -> Seq<u8> {
    file.subrange(start + 8 * k, start + 8 * k + 8)
}

/// Groups all bytes after the header offset into consecutive 8-byte records;
/// a trailing partial record is dropped. Never fails.
pub fn get_events(end_of_header_index: u32, aedat_file: &Vec<u8>) -> (r: Result<
    Vec<Event>,
    crate::AedatError,
>)
    ensures
        r is Ok,
        r matches Ok(events) ==> {
            &&& events@.len() == event_count(aedat_file@, end_of_header_index as int)
            &&& forall|k: int|
                0 <= k < events@.len() ==> events@[k].bytes@ =~= record_at(
                    aedat_file@,
                    end_of_header_index as int,
                    k,
                )
        },
{
    let start = end_of_header_index as usize;
    let mut events: Vec<Event> = Vec::new();
    if start > aedat_file.len() {
        return Ok(events);
    }
    let n: usize = (aedat_file.len() - start) / 8;
    for k in 0..n
        invariant
            start + 8 * n <= aedat_file.len(),
            n == event_count(aedat_file@, start as int),
            events@.len() == k,
            forall|j: int|
                0 <= j < k ==> events@[j].bytes@ =~= record_at(aedat_file@, start as int, j),
    {
        let base = start + 8 * k;
        let bytes: [u8; 8] = [
            aedat_file[base],
            aedat_file[base + 1],
            aedat_file[base + 2],
            aedat_file[base + 3],
            aedat_file[base + 4],
            aedat_file[base + 5],
            aedat_file[base + 6],
            aedat_file[base + 7],
        ];
        events.push(Event { bytes });
    }
    Ok(events)
}

} // verus!

