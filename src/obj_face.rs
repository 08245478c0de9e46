use vstd::prelude::*;

verus! {

/// Byte value of `/`, which separates the indices of a face corner.
pub const SLASH: u8 = 47;

/// Byte value of the digit `0`.
pub const DIGIT_ZERO: u8 = 48;

/// One corner of a face: 0-based indices into the model's positions, texture
/// coordinates and normals.
#[derive(Clone, Copy, Debug, PartialEq, Eq, Structural)]
pub struct FaceCorner {
    pub v: usize,
    pub vt: Option<usize>,
    pub vn: Option<usize>,
}

/// Why a face statement was rejected.
#[derive(Clone, Copy, Debug, PartialEq, Eq, Structural)]
pub enum FaceError {
    /// Fewer than three corners.
    TooFewCorners,
    /// A corner that is not `v`, `v/vt`, `v/vt/vn` or `v//vn` with decimal
    /// indices from 1.
    MalformedCorner,
    /// Some corners carry a texture coordinate or a normal and others do not.
    MixedAttributes,
    /// An index beyond the lists read so far.
    IndexOutOfRange,
}

pub open spec fn is_digit(b: u8) -> bool {
    DIGIT_ZERO <= b < DIGIT_ZERO + 10
}

/// The number written by a string of decimal digits.
pub open spec fn decimal_value(s: Seq<u8>) -> int
    decreases s.len(),
{
    if s.len() == 0 {
        0
    } else {
        decimal_value(s.drop_last()) * 10 + (s.last() - DIGIT_ZERO)
    }
}

/// The 0-based index written (from 1) in `s`, if `s` is a valid index.
pub open spec fn index_of(s: Seq<u8>) -> Option<usize> {
    if s.len() > 0 && (forall|i: int| 0 <= i < s.len() ==> is_digit(#[trigger] s[i])) && 1 <= decimal_value(s)
        <= usize::MAX {
        Some((decimal_value(s) - 1) as usize)
    } else {
        None
    }
}

/// The fields of `s` between slashes.
pub open spec fn split_slash(s: Seq<u8>) -> Seq<Seq<u8>>
    decreases s.len(),
{
    if s.len() == 0 {
        seq![Seq::empty()]
    } else {
        let prev = split_slash(s.drop_last());
        if s.last() == SLASH {
            prev.push(Seq::empty())
        } else {
            prev.update(prev.len() - 1, prev.last().push(s.last()))
        }
    }
}

/// The corner written by `s`: `v`, `v/vt`, `v/vt/vn` or `v//vn`.
pub open spec fn corner_of(s: Seq<u8>) -> Option<FaceCorner> {
    let f = split_slash(s);
    if f.len() == 1 {
        match index_of(f[0]) {
            Some(v) => Some(FaceCorner { v, vt: None, vn: None }),
            None => None,
        }
    } else if f.len() == 2 {
        match (index_of(f[0]), index_of(f[1])) {
            (Some(v), Some(vt)) => Some(FaceCorner { v, vt: Some(vt), vn: None }),
            _ => None,
        }
    } else if f.len() == 3 {
        match (index_of(f[0]), index_of(f[2])) {
            (Some(v), Some(vn)) => if f[1].len() == 0 {
                Some(FaceCorner { v, vt: None, vn: Some(vn) })
            } else {
                match index_of(f[1]) {
                    Some(vt) => Some(FaceCorner { v, vt: Some(vt), vn: Some(vn) }),
                    None => None,
                }
            },
            _ => None,
        }
    } else {
        None
    }
}

pub open spec fn index_in_range(i: Option<usize>, n: usize) -> bool {
    match i {
        Some(i) => i < n,
        None => true,
    }
}

pub open spec fn corner_in_range(c: FaceCorner, nv: usize, nvt: usize, nvn: usize) -> bool {
    c.v < nv && index_in_range(c.vt, nvt) && index_in_range(c.vn, nvn)
}

/// What reading the first three corners of a face gives, against lists of
/// `nv` positions, `nvt` texture coordinates and `nvn` normals.
pub open spec fn face_of(groups: Seq<Seq<u8>>, nv: usize, nvt: usize, nvn: usize) -> Result<[FaceCorner; 3], FaceError> {
    if groups.len() < 3 {
        Err(FaceError::TooFewCorners)
    } else {
        match (corner_of(groups[0]), corner_of(groups[1]), corner_of(groups[2])) {
            (Some(a), Some(b), Some(c)) => if a.vt is Some != b.vt is Some || a.vt is Some != c.vt is Some
                || a.vn is Some != b.vn is Some || a.vn is Some != c.vn is Some {
                Err(FaceError::MixedAttributes)
            } else if !corner_in_range(a, nv, nvt, nvn) || !corner_in_range(b, nv, nvt, nvn) || !corner_in_range(
                c,
                nv,
                nvt,
                nvn,
            ) {
                Err(FaceError::IndexOutOfRange)
            } else {
                Ok([a, b, c])
            },
            _ => Err(FaceError::MalformedCorner),
        }
    }
}

proof fn lemma_decimal_grows(s: Seq<u8>, d: u8)
    requires
        is_digit(d),
        forall|i: int| 0 <= i < s.len() ==> is_digit(#[trigger] s[i]),
    ensures
        decimal_value(s.push(d)) == decimal_value(s) * 10 + (d - DIGIT_ZERO),
        decimal_value(s.push(d)) >= decimal_value(s),
        decimal_value(s) >= 0,
    decreases s.len(),
{
    assert(s.push(d).drop_last() =~= s);
    if s.len() > 0 {
        assert(forall|i: int| 0 <= i < s.drop_last().len() ==> s.drop_last()[i] == s[i]);
        lemma_decimal_grows(s.drop_last(), s.last());
        assert(s.drop_last().push(s.last()) =~= s);
    }
}

/// A string whose first `k` bytes are digits writing a number beyond
/// `usize::MAX` is no index.
proof fn lemma_too_large(s: Seq<u8>, k: int)
    requires
        0 < k <= s.len(),
        forall|j: int| 0 <= j < k ==> is_digit(#[trigger] s[j]),
        decimal_value(s.take(k)) > usize::MAX,
    ensures
        index_of(s) is None,
    decreases s.len() - k,
{
    if k == s.len() {
        assert(s.take(k) =~= s);
    } else if !is_digit(s[k]) {
    } else {
        assert(s.take(k + 1) =~= s.take(k).push(s[k]));
        assert forall|j: int| 0 <= j < k implies is_digit(#[trigger] s.take(k)[j]) by {
            assert(s.take(k)[j] == s[j]);
        }
        lemma_decimal_grows(s.take(k), s[k]);
        lemma_too_large(s, k + 1);
    }
}

/// Reads the index written in `s[lo..hi]`.
fn parse_index(s: &Vec<u8>, lo: usize, hi: usize) -> (r: Option<usize>)
    requires
        lo <= hi <= s@.len(),
    ensures
        r == index_of(s@.subrange(lo as int, hi as int)),
{
    if lo == hi {
        return None;
    }
    let mut acc: usize = 0;
    let mut i = lo;
    while i < hi
        invariant
            lo <= i <= hi <= s@.len(),
            lo < hi,
            forall|j: int| 0 <= j < i - lo ==> is_digit(#[trigger] s@.subrange(lo as int, i as int)[j]),
            acc == decimal_value(s@.subrange(lo as int, i as int)),
        decreases hi - i,
    {
        let b = s[i];
        proof {
            assert(s@.subrange(lo as int, i + 1) =~= s@.subrange(lo as int, i as int).push(b));
        }
        if b < DIGIT_ZERO || b >= DIGIT_ZERO + 10 {
            proof {
                assert(!is_digit(s@.subrange(lo as int, hi as int)[i - lo]));
            }
            return None;
        }
        proof {
            lemma_decimal_grows(s@.subrange(lo as int, i as int), b);
        }
        let d = (b - DIGIT_ZERO) as usize;
        if acc > (usize::MAX - d) / 10 {
            proof {
                assert(acc * 10 + d > usize::MAX) by (nonlinear_arith)
                    requires
                        acc > (usize::MAX - d) / 10,
                        d <= 9,
                ;
                let whole = s@.subrange(lo as int, hi as int);
                assert(whole.take(i + 1 - lo) =~= s@.subrange(lo as int, i as int).push(b));
                assert forall|j: int| 0 <= j < i + 1 - lo implies is_digit(#[trigger] whole[j]) by {
                    if j < i - lo {
                        assert(whole[j] == s@.subrange(lo as int, i as int)[j]);
                    }
                }
                lemma_too_large(whole, i + 1 - lo);
            }
            return None;
        }
        acc = acc * 10 + d;
        i = i + 1;
    }
    if acc == 0 {
        return None;
    }
    Some(acc - 1)
}

/// The byte ranges of the fields of `s` between slashes.
fn field_ranges(s: &Vec<u8>) -> (r: Vec<(usize, usize)>)
    ensures
        r@.len() == split_slash(s@).len(),
        forall|k: int| 0 <= k < r@.len() ==> (#[trigger] r@[k]).0 <= r@[k].1 <= s@.len(),
        forall|k: int|
            0 <= k < r@.len() ==> s@.subrange(r@[k].0 as int, r@[k].1 as int) == #[trigger] split_slash(s@)[k],
{
    let mut r: Vec<(usize, usize)> = Vec::new();
    let mut start: usize = 0;
    let mut i: usize = 0;
    proof {
        assert(s@.take(0) =~= Seq::<u8>::empty());
        assert(s@.subrange(0, 0) =~= Seq::<u8>::empty());
    }
    while i < s.len()
        invariant
            0 <= start <= i <= s@.len(),
            split_slash(s@.take(i as int)).len() == r@.len() + 1,
            forall|k: int| 0 <= k < r@.len() ==> (#[trigger] r@[k]).0 <= r@[k].1 <= start,
            forall|k: int|
                0 <= k < r@.len() ==> s@.subrange(r@[k].0 as int, r@[k].1 as int) == #[trigger] split_slash(
                    s@.take(i as int),
                )[k],
            split_slash(s@.take(i as int))[r@.len() as int] == s@.subrange(start as int, i as int),
        decreases s@.len() - i,
    {
        let ghost prev = split_slash(s@.take(i as int));
        proof {
            assert(s@.take(i + 1).drop_last() =~= s@.take(i as int));
            assert(s@.take(i + 1).last() == s@[i as int]);
        }
        let ghost next = split_slash(s@.take(i + 1));
        let ghost r0 = r@;
        if s[i] == SLASH {
            r.push((start, i));
            start = i + 1;
            proof {
                assert(s@.subrange(start as int, i + 1) =~= Seq::<u8>::empty());
                assert(next == prev.push(Seq::empty()));
                assert forall|k: int| 0 <= k < r@.len() implies s@.subrange(
                    r@[k].0 as int,
                    r@[k].1 as int,
                ) == #[trigger] next[k] by {
                    if k < r0.len() {
                        assert(r@[k] == r0[k]);
                        assert(next[k] == prev[k]);
                    }
                }
            }
        } else {
            proof {
                assert(s@.subrange(start as int, i + 1) =~= s@.subrange(start as int, i as int).push(s@[i as int]));
                assert(next == prev.update(prev.len() - 1, prev.last().push(s@[i as int])));
                assert forall|k: int| 0 <= k < r@.len() implies s@.subrange(
                    r@[k].0 as int,
                    r@[k].1 as int,
                ) == #[trigger] next[k] by {
                    assert(next[k] == prev[k]);
                }
            }
        }
        i = i + 1;
        proof {
            assert(s@.take(i as int) == s@.take(i - 1 + 1));
            assert(split_slash(s@.take(i as int)) == next);
        }
    }
    let ghost r0 = r@;
    r.push((start, i));
    proof {
        assert(s@.take(s@.len() as int) =~= s@);
        assert forall|k: int| 0 <= k < r@.len() implies s@.subrange(
            r@[k].0 as int,
            r@[k].1 as int,
        ) == #[trigger] split_slash(s@)[k] by {
            assert(split_slash(s@.take(i as int))[k] == split_slash(s@)[k]);
            if k < r0.len() {
                assert(r@[k] == r0[k]);
            }
        }
    }
    r
}

/// Reads one face corner: `v`, `v/vt`, `v/vt/vn` or `v//vn`.
pub fn parse_corner(s: &Vec<u8>) -> (r: Option<FaceCorner>)
    ensures
        r == corner_of(s@),
{
    let f = field_ranges(s);
    let ghost fs = split_slash(s@);
    proof {
        if f@.len() >= 1 {
            assert(s@.subrange(f@[0].0 as int, f@[0].1 as int) == fs[0]);
        }
        if f@.len() >= 2 {
            assert(s@.subrange(f@[1].0 as int, f@[1].1 as int) == fs[1]);
        }
        if f@.len() >= 3 {
            assert(s@.subrange(f@[2].0 as int, f@[2].1 as int) == fs[2]);
        }
    }
    if f.len() == 1 {
        match parse_index(s, f[0].0, f[0].1) {
            Some(v) => Some(FaceCorner { v, vt: None, vn: None }),
            None => None,
        }
    } else if f.len() == 2 {
        match (parse_index(s, f[0].0, f[0].1), parse_index(s, f[1].0, f[1].1)) {
            (Some(v), Some(vt)) => Some(FaceCorner { v, vt: Some(vt), vn: None }),
            _ => None,
        }
    } else if f.len() == 3 {
        match (parse_index(s, f[0].0, f[0].1), parse_index(s, f[2].0, f[2].1)) {
            (Some(v), Some(vn)) => if f[1].0 == f[1].1 {
                Some(FaceCorner { v, vt: None, vn: Some(vn) })
            } else {
                match parse_index(s, f[1].0, f[1].1) {
                    Some(vt) => Some(FaceCorner { v, vt: Some(vt), vn: Some(vn) }),
                    None => None,
                }
            },
            _ => None,
        }
    } else {
        None
    }
}

fn in_range(i: Option<usize>, n: usize) -> (b: bool)
    ensures
        b == index_in_range(i, n),
{
    match i {
        Some(i) => i < n,
        None => true,
    }
}

fn corner_ok(c: FaceCorner, nv: usize, nvt: usize, nvn: usize) -> (b: bool)
    ensures
        b == corner_in_range(c, nv, nvt, nvn),
{
    c.v < nv && in_range(c.vt, nvt) && in_range(c.vn, nvn)
}

pub open spec fn groups_view(groups: Seq<Vec<u8>>) -> Seq<Seq<u8>> {
    groups.map_values(|g: Vec<u8>| g@)
}

/// Reads the first three corners of a face statement (the words after `f`),
/// against lists of `nv` positions, `nvt` texture coordinates and `nvn`
/// normals. Either all three corners carry a texture coordinate or none does,
/// and likewise for normals.
pub fn parse_face(groups: &Vec<Vec<u8>>, nv: usize, nvt: usize, nvn: usize) -> (r: Result<[FaceCorner; 3], FaceError>)
    ensures
        r == face_of(groups_view(groups@), nv, nvt, nvn),
{
    if groups.len() < 3 {
        return Err(FaceError::TooFewCorners);
    }
    let a = parse_corner(&groups[0]);
    let b = parse_corner(&groups[1]);
    let c = parse_corner(&groups[2]);
    match (a, b, c) {
        (Some(a), Some(b), Some(c)) => {
            if a.vt.is_some() != b.vt.is_some() || a.vt.is_some() != c.vt.is_some() || a.vn.is_some()
                != b.vn.is_some() || a.vn.is_some() != c.vn.is_some() {
                Err(FaceError::MixedAttributes)
            } else if !corner_ok(a, nv, nvt, nvn) || !corner_ok(b, nv, nvt, nvn) || !corner_ok(c, nv, nvt, nvn) {
                Err(FaceError::IndexOutOfRange)
            } else {
                Ok([a, b, c])
            }
        },
        _ => Err(FaceError::MalformedCorner),
    }
}

} // verus!
