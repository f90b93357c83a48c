use aedat_utilities::aedat_data::CameraType;
use aedat_utilities::aedat_header_tools::{find_header_end, find_line_in_header, parse_camera_type};
use aedat_utilities::AedatError;

const SENTINEL: &[u8] = b"#End Of ASCII Header\r\n";

#[test]
fn header_end_synthetic() {
    let mut file: Vec<u8> = Vec::new();
    file.extend_from_slice(b"#!AER-DAT2.0\r\n# comment line\r\n");
    let prefix = file.len();
    file.extend_from_slice(SENTINEL);
    file.extend_from_slice(&[1, 2, 3, 4, 5, 6, 7, 8]);
    let end = find_header_end(&file).unwrap();
    assert_eq!(end as usize, prefix + 22);
}

#[test]
fn header_end_first_occurrence_wins() {
    let mut file: Vec<u8> = Vec::new();
    file.extend_from_slice(SENTINEL);
    file.extend_from_slice(SENTINEL);
    let end = find_header_end(&file).unwrap();
    assert_eq!(end, 22);
}

#[test]
fn header_end_missing() {
    let file: Vec<u8> = b"#End Of ASCII Heade".to_vec();
    assert_eq!(find_header_end(&file), Err(AedatError::NotFound));
}

#[test]
fn camera_type_synthetic_dvs128() {
    let file: Vec<u8> =
        b"#!AER-DAT2.0\r\n# HardwareInterface: DVS128 something\r\n#End Of ASCII Header\r\n"
            .to_vec();
    let cam = parse_camera_type(&file).unwrap();
    assert_eq!(cam.camera_x, 128);
    assert_eq!(cam.camera_y, 128);
    assert!(matches!(cam.camera_type, CameraType::DVS128));
}

#[test]
fn camera_type_synthetic_davis240() {
    let file: Vec<u8> =
        b"# junk\r\n# HardwareInterface: DAVIS240C rev2\r\n#End Of ASCII Header\r\n".to_vec();
    let cam = parse_camera_type(&file).unwrap();
    assert_eq!(cam.camera_x, 240);
    assert_eq!(cam.camera_y, 180);
    assert!(matches!(cam.camera_type, CameraType::DAVIS240));
}

#[test]
fn camera_type_unrecognized_model() {
    let file: Vec<u8> = b"# HardwareInterface: DAVIS346\r\n".to_vec();
    assert!(matches!(parse_camera_type(&file), Err(AedatError::NotFound)));
}

#[test]
fn camera_type_marker_missing() {
    let file: Vec<u8> = b"# nothing interesting here\r\nDVS128\r\n".to_vec();
    assert!(matches!(parse_camera_type(&file), Err(AedatError::NotFound)));
}

#[test]
fn find_line_returns_whole_line() {
    let file: Vec<u8> = b"first line\r\n# HardwareInterface: DVS128\r\nlast".to_vec();
    let line = find_line_in_header(&file, "HardwareInterface").unwrap();
    assert_eq!(line, "# HardwareInterface: DVS128");
}

#[test]
fn find_line_last_fragment_counts() {
    let file: Vec<u8> = b"alpha\nbeta gamma".to_vec();
    let line = find_line_in_header(&file, "gamma").unwrap();
    assert_eq!(line, "beta gamma");
}

#[test]
fn find_line_not_found() {
    let file: Vec<u8> = b"alpha\nbeta\n".to_vec();
    assert!(matches!(
        find_line_in_header(&file, "delta"),
        Err(AedatError::NotFound)
    ));
}

#[test]
fn find_line_searches_only_first_512k() {
    let mut file: Vec<u8> = vec![b'x'; 524288];
    file[524287] = b'\n';
    file.extend_from_slice(b"# HardwareInterface: DVS128\n");
    assert!(matches!(
        find_line_in_header(&file, "HardwareInterface"),
        Err(AedatError::NotFound)
    ));
    assert!(matches!(parse_camera_type(&file), Err(AedatError::NotFound)));
}
