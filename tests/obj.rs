use rasteriser::obj_face::{parse_corner, parse_face, FaceCorner, FaceError};

fn corner(s: &str) -> Option<FaceCorner> {
    parse_corner(&s.as_bytes().to_vec())
}

fn face(s: &str, n: usize) -> Result<[FaceCorner; 3], FaceError> {
    let groups: Vec<Vec<u8>> = s.split_whitespace().map(|g| g.as_bytes().to_vec()).collect();
    parse_face(&groups, n, n, n)
}

#[test]
fn corner_forms() {
    assert_eq!(corner("1"), Some(FaceCorner { v: 0, vt: None, vn: None }));
    assert_eq!(corner("3/2"), Some(FaceCorner { v: 2, vt: Some(1), vn: None }));
    assert_eq!(corner("4/5/6"), Some(FaceCorner { v: 3, vt: Some(4), vn: Some(5) }));
    assert_eq!(corner("7//8"), Some(FaceCorner { v: 6, vt: None, vn: Some(7) }));
    assert_eq!(corner("120"), Some(FaceCorner { v: 119, vt: None, vn: None }));
}

#[test]
fn corner_rejects() {
    assert_eq!(corner(""), None);
    assert_eq!(corner("0"), None);
    assert_eq!(corner("a"), None);
    assert_eq!(corner("1/"), None);
    assert_eq!(corner("/1"), None);
    assert_eq!(corner("1/2/3/4"), None);
    assert_eq!(corner("1//"), None);
    assert_eq!(corner("-1"), None);
    assert_eq!(corner("99999999999999999999999"), None);
    assert_eq!(corner("18446744073709551616"), None);
    assert_eq!(corner("18446744073709551615"), Some(FaceCorner { v: usize::MAX - 1, vt: None, vn: None }));
}

#[test]
fn face_statements() {
    let f = face("1/1/1 2/2/2 3/3/3", 3).unwrap();
    assert_eq!(f[2], FaceCorner { v: 2, vt: Some(2), vn: Some(2) });
    // extra corners are ignored
    assert_eq!(face("1 2 3 4", 4).unwrap()[1], FaceCorner { v: 1, vt: None, vn: None });
    assert_eq!(face("1 2", 3), Err(FaceError::TooFewCorners));
    assert_eq!(face("1/1 2 3", 3), Err(FaceError::MixedAttributes));
    assert_eq!(face("1//1 2//2 3", 3), Err(FaceError::MixedAttributes));
    assert_eq!(face("1 2 4", 3), Err(FaceError::IndexOutOfRange));
    assert_eq!(face("1 x 3", 3), Err(FaceError::MalformedCorner));
}
