//! Locating the end of the ASCII header and reading the camera model out of
//! its marker line.

use vstd::prelude::*;

use crate::AedatError;
use crate::aedat_data::{CameraParameters, CameraType};

verus! {

/// How much of the file the header search looks at: the first 512 KiB, or the
/// whole file if it is smaller.
pub open spec fn header_cap(file: Seq<u8>) -> int {
    if file.len() >= 524288 {
        524288
    } else {
        file.len() as int
    }
}

/// The region of the file that the header search looks at.
pub open spec fn header_region(file: Seq<u8>) -> Seq<u8> {
    file.take(header_cap(file))
}

/// The needle sits in the haystack at position `i`.
pub open spec fn needle_at(hay: Seq<u8>, needle: Seq<u8>, i: int) -> bool {
    0 <= i && i + needle.len() <= hay.len() && hay.subrange(i, i + needle.len()) == needle
}

/// The needle sits somewhere in the haystack.
pub open spec fn seq_has(hay: Seq<u8>, needle: Seq<u8>) -> bool {
    exists|i: int| needle_at(hay, needle, i)
}

/// A line as the line iterator yields it: one trailing carriage return is
/// stripped.
pub open spec fn strip_cr(l: Seq<u8>) -> Seq<u8> {
    if l.len() > 0 && l.last() == 13 {
        l.drop_last()
    } else {
        l
    }
}

/// The first line of `region` that holds the needle, reading the region as
/// newline-separated lines without their line endings. A final fragment with
/// no newline counts as a line; an empty region holds no lines at all.
pub open spec fn find_line(region: Seq<u8>, needle: Seq<u8>) -> Option<Seq<u8>>
    decreases region.len(),
    via find_line_decreases
{
    match region.index_of_first(10u8) {
        Some(j) => {
            let l = strip_cr(region.take(j));
            if seq_has(l, needle) {
                Some(l)
            } else {
                find_line(region.skip(j + 1), needle)
            }
        },
        None => {
            if region.len() > 0 && seq_has(strip_cr(region), needle) {
                Some(strip_cr(region))
            } else {
                None
            }
        },
    }
}

#[via_fn]
proof fn find_line_decreases(region: Seq<u8>, needle: Seq<u8>) {
    region.index_of_first_ensures(10u8);
}

/// How one byte of the header is read as a character: ASCII bytes stand for
/// themselves, anything else becomes the replacement character.
pub open spec fn lossy_char(b: u8) -> char {
    if b < 128 {
        b as char
    } else {
        '\u{fffd}'
    }
}

/// The characters that a run of header bytes is read as, one per byte.
pub open spec fn lossy_chars(bs: Seq<u8>) -> Seq<char> {
    Seq::new(bs.len(), |i: int| lossy_char(bs[i]))
}

/// The bytes of an ASCII character sequence.
pub open spec fn ascii_bytes(s: Seq<char>) -> Seq<u8> {
    Seq::new(s.len(), |i: int| s[i] as u8)
}

/// Finds the first newline at or after `start`, or `cap` if there is none
/// before it.
fn first_newline_from(file: &Vec<u8>, cap: usize, start: usize) -> (j: usize)
    requires
        start <= cap <= file@.len(),
    ensures
        start <= j <= cap,
        forall|k: int| start <= k < j ==> file@[k] != 10u8,
        j < cap ==> file@[j as int] == 10u8,
{
    let mut j = start;
    while j < cap
        invariant
            start <= j <= cap <= file@.len(),
            forall|k: int| start <= k < j ==> file@[k] != 10u8,
        decreases cap - j,
    {
        if file[j] == 10 {
            return j;
        }
        j += 1;
    }
    j
}

/// Naive search for the needle inside `file[a..b]`.
fn has_sub(file: &Vec<u8>, a: usize, b: usize, needle: &Vec<u8>) -> (r: bool)
    requires
        a <= b <= file@.len(),
    ensures
        r == seq_has(file@.subrange(a as int, b as int), needle@),
{
    let ghost hay = file@.subrange(a as int, b as int);
    let n = needle.len();
    if n > b - a {
        proof {
            assert(forall|i: int| !needle_at(hay, needle@, i));
        }
        return false;
    }
    let mut i: usize = 0;
    while i <= (b - a) - n
        invariant
            a <= b <= file@.len(),
            n == needle@.len(),
            n <= b - a,
            hay == file@.subrange(a as int, b as int),
            i <= (b - a) - n + 1,
            forall|p: int| 0 <= p < i ==> !needle_at(hay, needle@, p),
        decreases (b - a) - n + 1 - i,
    {
        let mut j: usize = 0;
        let mut matches = true;
        while j < n
            invariant
                a <= b <= file@.len(),
                n == needle@.len(),
                i + n <= b - a,
                hay == file@.subrange(a as int, b as int),
                j <= n,
                matches == (forall|q: int| 0 <= q < j ==> hay[i + q] == needle@[q]),
            decreases n - j,
        {
            if file[a + i + j] != needle[j] {
                matches = false;
                proof {
                    assert(hay[i + j] != needle@[j as int]);
                }
                j = n;
            } else {
                j += 1;
            }
        }
        if matches {
            proof {
                assert(hay.subrange(i as int, i + n) =~= needle@);
                assert(needle_at(hay, needle@, i as int));
            }
            return true;
        }
        i += 1;
    }
    proof {
        assert forall|p: int| !needle_at(hay, needle@, p) by {
            if 0 <= p && p + n <= hay.len() {
                if p < i {
                } else {
                    assert(hay.len() == b - a);
                    assert(p <= (b - a) - n);
                    assert(p < i);
                }
            }
        }
    }
    false
}

/// Finds the first line of the header region that holds the needle; returns
/// the bounds of that line (line ending already stripped) within the file.
fn find_marked_line(file: &Vec<u8>, needle: &Vec<u8>) -> (r: Option<(usize, usize)>)
    ensures
        match r {
            Some(ab) => {
                &&& ab.0 <= ab.1 <= header_cap(file@)
                &&& find_line(header_region(file@), needle@) == Some(
                    file@.subrange(ab.0 as int, ab.1 as int),
                )
            },
            None => find_line(header_region(file@), needle@) is None,
        },
{
    let cap: usize = if file.len() >= 524288 {
        524288
    } else {
        file.len()
    };
    let ghost region = header_region(file@);
    proof {
        assert(region =~= file@.take(cap as int));
    }
    let mut start: usize = 0;
    proof {
        assert(region.skip(0) =~= region);
    }
    while start < cap
        invariant
            start <= cap <= file@.len(),
            region == header_region(file@),
            region == file@.take(cap as int),
            find_line(region, needle@) == find_line(region.skip(start as int), needle@),
        decreases cap - start,
    {
        let ghost rs = region.skip(start as int);
        let j = first_newline_from(file, cap, start);
        let e: usize = if j > start && file[j - 1] == 13 {
            j - 1
        } else {
            j
        };
        let ghost raw = file@.subrange(start as int, j as int);
        let ghost l = strip_cr(raw);
        proof {
            assert(l =~= file@.subrange(start as int, e as int));
        }
        let found = has_sub(file, start, e, needle);
        proof {
            rs.index_of_first_ensures(10u8);
            if j < cap {
                // The newline at j fixes the value of index_of_first on rs.
                assert(rs[j - start] == 10u8);
                match rs.index_of_first(10u8) {
                    Some(idx) => {
                        assert(rs[idx] == 10u8);
                        assert(idx >= j - start);
                        assert(idx <= j - start);
                        assert(rs.take(j - start) =~= raw);
                    },
                    None => {
                        assert(false);
                    },
                }
            } else {
                match rs.index_of_first(10u8) {
                    Some(idx) => {
                        assert(rs[idx] == 10u8);
                        assert(false);
                    },
                    None => {
                        assert(rs =~= raw);
                    },
                }
            }
        }
        if found {
            return Some((start, e));
        }
        if j == cap {
            return None;
        }
        proof {
            assert(rs.skip(j - start + 1) =~= region.skip(j + 1));
        }
        start = j + 1;
    }
    proof {
        assert(region.skip(start as int) =~= Seq::<u8>::empty());
        region.skip(start as int).index_of_first_ensures(10u8);
        match region.skip(start as int).index_of_first(10u8) {
            Some(idx) => {
                assert(false);
            },
            None => {},
        }
    }
    None
}

/// Converts the byte `b` of the header into the character it is read as.
fn byte_to_lossy_char(b: u8) -> (c: char)
    ensures
        c == lossy_char(b),
{
    if b < 128 {
        b as char
    } else {
        '\u{fffd}'
    }
}

/// Searches the first 512 KiB of the file (or all of it, if smaller) for a
/// line that holds `search`, and returns that line with non-ASCII bytes read
/// as the replacement character. Fails with `NotFound` when no line holds the
/// search text.
pub fn find_line_in_header(aedat_file: &Vec<u8>, search: &str) -> (r: Result<String, AedatError>)
    requires
        search.is_ascii(),
    ensures
        match r {
            Ok(line) => {
                &&& find_line(header_region(aedat_file@), ascii_bytes(search@)) is Some
                &&& line@ == lossy_chars(
                    find_line(header_region(aedat_file@), ascii_bytes(search@)).unwrap(),
                )
            },
            Err(e) => {
                &&& e == AedatError::NotFound
                &&& find_line(header_region(aedat_file@), ascii_bytes(search@)) is None
            },
        },
{
    broadcast use vstd::string::is_ascii_spec_bytes;

    let needle: Vec<u8> = search.as_bytes_vec();
    proof {
        assert(needle@ =~= ascii_bytes(search@));
    }
    match find_marked_line(aedat_file, &needle) {
        Some((a, b)) => {
            let mut line = String::new();
            let mut i = a;
            while i < b
                invariant
                    a <= i <= b <= aedat_file@.len(),
                    line@ =~= lossy_chars(aedat_file@.subrange(a as int, i as int)),
                decreases b - i,
            {
                crate::text::push_char(&mut line, byte_to_lossy_char(aedat_file[i]));
                i += 1;
                proof {
                    assert(line@ =~= lossy_chars(aedat_file@.subrange(a as int, i as int)));
                }
            }
            Ok(line)
        },
        None => Err(AedatError::NotFound),
    }
}

/// The marker line that announces the camera model.
pub open spec fn hardware_line(file: Seq<u8>) -> Option<Seq<u8>> {
    find_line(header_region(file), ascii_bytes("# HardwareInterface:"@))
}

/// The camera model named on the marker line: `DVS128` wins over `DAVIS240`
/// when both occur, and a missing marker line or an unrecognized model parses
/// to nothing.
pub open spec fn parsed_camera(file: Seq<u8>) -> Option<CameraType> {
    match hardware_line(file) {
        None => None,
        Some(l) => if seq_has(l, ascii_bytes("DVS128"@)) {
            Some(CameraType::DVS128)
        } else if seq_has(l, ascii_bytes("DAVIS240"@)) {
            Some(CameraType::DAVIS240)
        } else {
            None
        },
    }
}

/// Reads the camera model off the header's marker line and returns its
/// geometry. Fails with `NotFound` when the marker line is absent or names no
/// recognized model.
pub fn parse_camera_type(aedat_file: &Vec<u8>) -> (r: Result<CameraParameters, AedatError>)
    ensures
        match r {
            Ok(cam) => {
                &&& parsed_camera(aedat_file@) == Some(cam.camera_type)
                &&& cam.wf()
            },
            Err(e) => {
                &&& e == AedatError::NotFound
                &&& parsed_camera(aedat_file@) is None
            },
        },
{
    broadcast use vstd::string::is_ascii_spec_bytes;

    let marker = "# HardwareInterface:";
    let dvs_tag = "DVS128";
    let davis_tag = "DAVIS240";
    proof {
        reveal_strlit("# HardwareInterface:");
        reveal_strlit("DVS128");
        reveal_strlit("DAVIS240");
        assert(marker.is_ascii());
        assert(dvs_tag.is_ascii());
        assert(davis_tag.is_ascii());
    }
    let needle: Vec<u8> = marker.as_bytes_vec();
    let dvs_needle: Vec<u8> = dvs_tag.as_bytes_vec();
    let davis_needle: Vec<u8> = davis_tag.as_bytes_vec();
    proof {
        assert(needle@ =~= ascii_bytes(marker@));
        assert(dvs_needle@ =~= ascii_bytes(dvs_tag@));
        assert(davis_needle@ =~= ascii_bytes(davis_tag@));
    }
    match find_marked_line(aedat_file, &needle) {
        Some((a, b)) => {
            if has_sub(aedat_file, a, b, &dvs_needle) {
                Ok(CameraParameters::new(CameraType::DVS128))
            } else if has_sub(aedat_file, a, b, &davis_needle) {
                Ok(CameraParameters::new(CameraType::DAVIS240))
            } else {
                Err(AedatError::NotFound)
            }
        },
        None => Err(AedatError::NotFound),
    }
}

/// The 22 bytes of the sentinel `"#End Of ASCII Header\r\n"` that close the
/// ASCII header.
pub open spec fn header_sentinel() -> Seq<u8> {
    seq![35u8, 69, 110, 100, 32, 79, 102, 32, 65, 83, 67, 73, 73, 32, 72, 101, 97, 100, 101, 114, 13, 10]
}

/// The sentinel sits in the file at position `i`.
pub open spec fn sentinel_at(file: Seq<u8>, i: int) -> bool {
    needle_at(file, header_sentinel(), i)
}

/// Builds the sentinel bytes.
fn sentinel_vec() -> (v: Vec<u8>)
    ensures
        v@ == header_sentinel(),
{
    let v: Vec<u8> = vec![
        35u8, 69, 110, 100, 32, 79, 102, 32, 65, 83, 67, 73, 73, 32, 72, 101, 97, 100, 101, 114,
        13, 10,
    ];
    proof {
        assert(v@ =~= header_sentinel());
    }
    v
}

/// Scans the whole file for the first occurrence of the header sentinel and
/// returns the offset one past its last byte. Fails with `NotFound` when the
/// sentinel never appears.
pub fn find_header_end(aedat_file: &Vec<u8>) -> (r: Result<u32, AedatError>)
    requires
        aedat_file@.len() <= u32::MAX,
    ensures
        match r {
            Ok(n) => {
                &&& sentinel_at(aedat_file@, n - 22)
                &&& forall|j: int| 0 <= j < n - 22 ==> !sentinel_at(aedat_file@, j)
            },
            Err(e) => {
                &&& e == AedatError::NotFound
                &&& forall|j: int| !sentinel_at(aedat_file@, j)
            },
        },
{
    let sentinel = sentinel_vec();
    let len = aedat_file.len();
    if len < 22 {
        proof {
            assert(forall|j: int| !sentinel_at(aedat_file@, j));
        }
        return Err(AedatError::NotFound);
    }
    let mut s: usize = 0;
    while s <= len - 22
        invariant
            22 <= len == aedat_file@.len() <= u32::MAX,
            s <= len - 22 + 1,
            sentinel@ == header_sentinel(),
            forall|j: int| 0 <= j < s ==> !sentinel_at(aedat_file@, j),
        decreases len - s,
    {
        let mut j: usize = 0;
        let mut matches = true;
        while j < 22
            invariant
                s + 22 <= len == aedat_file@.len(),
                sentinel@ == header_sentinel(),
                j <= 22,
                matches == (forall|q: int| 0 <= q < j ==> aedat_file@[s + q] == header_sentinel()[q]),
            decreases 22 - j,
        {
            if aedat_file[s + j] != sentinel[j] {
                matches = false;
                proof {
                    assert(aedat_file@[s + j] != header_sentinel()[j as int]);
                }
                j = 22;
            } else {
                j += 1;
            }
        }
        if matches {
            proof {
                assert(aedat_file@.subrange(s as int, s + 22) =~= header_sentinel());
            }
            return Ok((s as u32) + 22);
        }
        proof {
            assert(!sentinel_at(aedat_file@, s as int));
        }
        s += 1;
    }
    proof {
        assert forall|j: int| !sentinel_at(aedat_file@, j) by {
            if 0 <= j && j + 22 <= aedat_file@.len() {
                assert(j < s);
            }
        }
    }
    Err(AedatError::NotFound)
}

} // verus!
