//! The annotation graph: per-class directories, offset sets, the annotation
//! items themselves, and call-site items, which reuse the encoded-value
//! language.

use vstd::prelude::*;

use crate::cursor::{read_u32, spec_u32_at, Endian};
use crate::encoded_value::{
    spec_decode_annotation,
    spec_decode_value,
    EncodedAnnotation,
    EncodedAnnotationV,
    EncodedValue,
    EncodedValueV,
    ENCODED_VALUE_DEPTH_CAP,
};
use crate::err::{derr, DexError, DexErrorKind};
use crate::header::{find_type_in_map, spec_find_type, MapItem};
use crate::leb128::{read_uleb128, spec_read_uleb128};

verus! {

/// One class's annotation directory.
#[derive(Debug)]
pub struct AnnotationsDirectory {
    pub class_annotations_off: u32,
    pub field_annotations: Vec<FieldAnnotation>,
    pub method_annotations: Vec<MethodAnnotation>,
    pub parameter_annotations: Vec<ParameterAnnotation>,
}

/// A field and the offset of its annotation set.
#[derive(Clone, Copy, Debug, PartialEq, Eq, Structural)]
pub struct FieldAnnotation {
    pub field_idx: u32,
    pub annotations_off: u32,
}

/// A method and the offset of its annotation set.
#[derive(Clone, Copy, Debug, PartialEq, Eq, Structural)]
pub struct MethodAnnotation {
    pub method_idx: u32,
    pub annotations_off: u32,
}

/// A method and the offset of its parameter annotation list.
#[derive(Clone, Copy, Debug, PartialEq, Eq, Structural)]
pub struct ParameterAnnotation {
    pub method_idx: u32,
    pub annotations_off: u32,
}

/// The mathematical shape of an `AnnotationsDirectory`.
pub struct AnnotationsDirectoryV {
    pub class_annotations_off: u32,
    pub field_annotations: Seq<FieldAnnotation>,
    pub method_annotations: Seq<MethodAnnotation>,
    pub parameter_annotations: Seq<ParameterAnnotation>,
}

impl View for AnnotationsDirectory {
    type V = AnnotationsDirectoryV;

    open spec fn view(&self) -> AnnotationsDirectoryV {
        AnnotationsDirectoryV {
            class_annotations_off: self.class_annotations_off,
            field_annotations: self.field_annotations@,
            method_annotations: self.method_annotations@,
            parameter_annotations: self.parameter_annotations@,
        }
    }
}

/// Who an annotation is visible to.
#[derive(Clone, Copy, Debug, PartialEq, Eq, Structural)]
pub enum Visibility {
    VisibilityBuild,
    VisibilityRuntime,
    VisibilitySystem,
}

/// One annotation item: its visibility byte and its payload.
#[derive(Debug)]
pub struct AnnotationItem {
    pub visibility: Visibility,
    pub annotation: EncodedAnnotation,
}

/// The mathematical shape of an `AnnotationItem`.
pub struct AnnotationItemV {
    pub visibility: Visibility,
    pub annotation: EncodedAnnotationV,
}

impl View for AnnotationItem {
    type V = AnnotationItemV;

    open spec fn view(&self) -> AnnotationItemV {
        AnnotationItemV { visibility: self.visibility, annotation: self.annotation@ }
    }
}

/// One call site: the three required leading references and the extra
/// arguments that follow them.
#[derive(Debug)]
pub struct CallSiteItem {
    pub method_handle_idx: u32,
    pub method_name_idx: u32,
    pub method_type_idx: u32,
    pub args: Vec<EncodedValue>,
}

/// The mathematical shape of a `CallSiteItem`.
pub struct CallSiteItemV {
    pub method_handle_idx: u32,
    pub method_name_idx: u32,
    pub method_type_idx: u32,
    pub args: Seq<EncodedValueV>,
}

impl View for CallSiteItem {
    type V = CallSiteItemV;

    open spec fn view(&self) -> CallSiteItemV {
        CallSiteItemV {
            method_handle_idx: self.method_handle_idx,
            method_name_idx: self.method_name_idx,
            method_type_idx: self.method_type_idx,
            args: Seq::new(self.args@.len(), |i: int| self.args@[i]@),
        }
    }
}

/// The first record of a pair array, from index `k` on, whose annotation
/// set offset is neither absent nor inside the image.
pub open spec fn spec_pair_off_err(d: Seq<u8>, base: int, size: int, e: Endian, k: int) -> Option<
    DexError,
>
    decreases size - k,
{
    if k < 0 || k >= size {
        None
    } else {
        let x = spec_u32_at(d, base + 8 * k + 4, e);
        if !(x == 0 || x < d.len()) {
            Some(derr(DexErrorKind::OffsetOutOfRange, base + 8 * k + 4))
        } else {
            spec_pair_off_err(d, base, size, e, k + 1)
        }
    }
}

/// Decodes one annotations directory: a class offset, three counts, then the
/// three offset arrays; every stored offset must be absent or inside the
/// image.
pub open spec fn spec_ann_dir_at(d: Seq<u8>, pos: int, e: Endian) -> Result<
    (AnnotationsDirectoryV, int),
    DexError,
> {
    if pos < 0 || pos + 16 > d.len() {
        Err(derr(DexErrorKind::Truncated, pos))
    } else {
        let class_off = spec_u32_at(d, pos, e);
        let fsize = spec_u32_at(d, pos + 4, e) as int;
        let msize = spec_u32_at(d, pos + 8, e) as int;
        let psize = spec_u32_at(d, pos + 12, e) as int;
        let base = pos + 16;
        if base + 8 * (fsize + msize + psize) > d.len() {
            Err(derr(DexErrorKind::Truncated, base))
        } else if !(class_off == 0 || class_off < d.len()) {
            Err(derr(DexErrorKind::OffsetOutOfRange, pos))
        } else if spec_pair_off_err(d, base, fsize, e, 0) is Some {
            Err(spec_pair_off_err(d, base, fsize, e, 0)->Some_0)
        } else if spec_pair_off_err(d, base + 8 * fsize, msize, e, 0) is Some {
            Err(spec_pair_off_err(d, base + 8 * fsize, msize, e, 0)->Some_0)
        } else if spec_pair_off_err(d, base + 8 * fsize + 8 * msize, psize, e, 0) is Some {
            Err(spec_pair_off_err(d, base + 8 * fsize + 8 * msize, psize, e, 0)->Some_0)
        } else {
            let fbase = base;
            let mbase = base + 8 * fsize;
            let pbase = base + 8 * fsize + 8 * msize;
            Ok(
                (
                    AnnotationsDirectoryV {
                        class_annotations_off: class_off,
                        field_annotations: Seq::new(
                            fsize as nat,
                            |i: int|
                                FieldAnnotation {
                                    field_idx: spec_u32_at(d, fbase + 8 * i, e),
                                    annotations_off: spec_u32_at(d, fbase + 8 * i + 4, e),
                                },
                        ),
                        method_annotations: Seq::new(
                            msize as nat,
                            |i: int|
                                MethodAnnotation {
                                    method_idx: spec_u32_at(d, mbase + 8 * i, e),
                                    annotations_off: spec_u32_at(d, mbase + 8 * i + 4, e),
                                },
                        ),
                        parameter_annotations: Seq::new(
                            psize as nat,
                            |i: int|
                                ParameterAnnotation {
                                    method_idx: spec_u32_at(d, pbase + 8 * i, e),
                                    annotations_off: spec_u32_at(d, pbase + 8 * i + 4, e),
                                },
                        ),
                    },
                    base + 8 * (fsize + msize + psize),
                ),
            )
        }
    }
}

/// Decodes `count` consecutive annotations directories.
pub open spec fn spec_ann_dirs(d: Seq<u8>, pos: int, count: int, e: Endian) -> Result<
    (Seq<AnnotationsDirectoryV>, int),
    DexError,
>
    decreases count,
{
    if count <= 0 {
        Ok((Seq::empty(), pos))
    } else {
        match spec_ann_dir_at(d, pos, e) {
            Err(e2) => Err(e2),
            Ok((x, p)) => match spec_ann_dirs(d, p, count - 1, e) {
                Err(e2) => Err(e2),
                Ok((s, end)) => Ok((seq![x] + s, end)),
            },
        }
    }
}

/// Views a vector of directories element by element.
pub open spec fn spec_ann_dir_views(s: Seq<AnnotationsDirectory>) -> Seq<AnnotationsDirectoryV> {
    Seq::new(s.len(), |i: int| s[i]@)
}

#[verifier::rlimit(100)]
fn parse_ann_dir(data: &[u8], pos: usize, e: Endian) -> (r: Result<
    (AnnotationsDirectory, usize),
    DexError,
>)
    ensures
        match spec_ann_dir_at(data@, pos as int, e) {
            Ok(p) => r matches Ok(q) && q.0@ == p.0 && q.1 == p.1,
            Err(e2) => r == Err::<(AnnotationsDirectory, usize), DexError>(e2),
        },
{
    let ghost d = data@;
    if pos > data.len() || data.len() - pos < 16 {
        return Err(DexError::new(DexErrorKind::Truncated, pos));
    }
    let (class_annotations_off, _) = match read_u32(data, pos, e) {
        Ok(p) => p,
        Err(err) => {
            return Err(err);
        },
    };
    let (fsize, _) = match read_u32(data, pos + 4, e) {
        Ok(p) => p,
        Err(err) => {
            return Err(err);
        },
    };
    let (msize, _) = match read_u32(data, pos + 8, e) {
        Ok(p) => p,
        Err(err) => {
            return Err(err);
        },
    };
    let (psize, _) = match read_u32(data, pos + 12, e) {
        Ok(p) => p,
        Err(err) => {
            return Err(err);
        },
    };
    let base = pos + 16;
    if 8 * (fsize as u64 + msize as u64 + psize as u64) > (data.len() - base) as u64 {
        return Err(DexError::new(DexErrorKind::Truncated, base));
    }
    let mut field_annotations: Vec<FieldAnnotation> = Vec::new();
    let mut i: u32 = 0;
    while i < fsize
        invariant
            i <= fsize,
            d == data@,
            base + 8 * (fsize as int) <= data.len(),
            field_annotations@.len() == i,
            forall|j: int|
                0 <= j < i ==> field_annotations@[j] == (FieldAnnotation {
                    field_idx: spec_u32_at(d, base + 8 * j, e),
                    annotations_off: spec_u32_at(d, base + 8 * j + 4, e),
                }),
        decreases fsize - i,
    {
        let p = base + 8 * i as usize;
        let (field_idx, _) = match read_u32(data, p, e) {
            Ok(q) => q,
            Err(err) => {
                return Err(err);
            },
        };
        let (annotations_off, _) = match read_u32(data, p + 4, e) {
            Ok(q) => q,
            Err(err) => {
                return Err(err);
            },
        };
        field_annotations.push(FieldAnnotation { field_idx, annotations_off });
        i = i + 1;
    }
    let mbase = base + 8 * fsize as usize;
    let mut method_annotations: Vec<MethodAnnotation> = Vec::new();
    let mut k: u32 = 0;
    while k < msize
        invariant
            k <= msize,
            d == data@,
            mbase == base + 8 * (fsize as int),
            mbase + 8 * (msize as int) <= data.len(),
            method_annotations@.len() == k,
            forall|j: int|
                0 <= j < k ==> method_annotations@[j] == (MethodAnnotation {
                    method_idx: spec_u32_at(d, mbase + 8 * j, e),
                    annotations_off: spec_u32_at(d, mbase + 8 * j + 4, e),
                }),
        decreases msize - k,
    {
        let p = mbase + 8 * k as usize;
        let (method_idx, _) = match read_u32(data, p, e) {
            Ok(q) => q,
            Err(err) => {
                return Err(err);
            },
        };
        let (annotations_off, _) = match read_u32(data, p + 4, e) {
            Ok(q) => q,
            Err(err) => {
                return Err(err);
            },
        };
        method_annotations.push(MethodAnnotation { method_idx, annotations_off });
        k = k + 1;
    }
    let pbase = mbase + 8 * msize as usize;
    let mut parameter_annotations: Vec<ParameterAnnotation> = Vec::new();
    let mut m: u32 = 0;
    while m < psize
        invariant
            m <= psize,
            d == data@,
            pbase == base + 8 * (fsize as int) + 8 * (msize as int),
            pbase + 8 * (psize as int) <= data.len(),
            parameter_annotations@.len() == m,
            forall|j: int|
                0 <= j < m ==> parameter_annotations@[j] == (ParameterAnnotation {
                    method_idx: spec_u32_at(d, pbase + 8 * j, e),
                    annotations_off: spec_u32_at(d, pbase + 8 * j + 4, e),
                }),
        decreases psize - m,
    {
        let p = pbase + 8 * m as usize;
        let (method_idx, _) = match read_u32(data, p, e) {
            Ok(q) => q,
            Err(err) => {
                return Err(err);
            },
        };
        let (annotations_off, _) = match read_u32(data, p + 4, e) {
            Ok(q) => q,
            Err(err) => {
                return Err(err);
            },
        };
        parameter_annotations.push(ParameterAnnotation { method_idx, annotations_off });
        m = m + 1;
    }
    let dlen = data.len();
    proof {
        assert(d.len() == dlen as int);
    }
    if !(class_annotations_off == 0 || (class_annotations_off as usize) < dlen) {
        return Err(DexError::new(DexErrorKind::OffsetOutOfRange, pos));
    }
    let mut vf: u32 = 0;
    while vf < fsize
        invariant
            vf <= fsize,
            d == data@,
            d.len() <= usize::MAX,
            dlen == d.len(),
            pos + 16 <= d.len(),
            base == pos + 16,
            fsize == spec_u32_at(d, pos as int + 4, e),
            msize == spec_u32_at(d, pos as int + 8, e),
            psize == spec_u32_at(d, pos as int + 12, e),
            base as int + 8 * (fsize as int) + 8 * (msize as int) + 8 * (psize as int) <= d.len(),
            field_annotations@.len() == fsize,
            forall|j: int|
                0 <= j < fsize ==> field_annotations@[j] == (FieldAnnotation {
                    field_idx: spec_u32_at(d, base + 8 * j, e),
                    annotations_off: spec_u32_at(d, base + 8 * j + 4, e),
                }),
            class_annotations_off == spec_u32_at(d, pos as int, e),
            class_annotations_off == 0 || class_annotations_off < d.len(),
            spec_pair_off_err(d, base as int, fsize as int, e, 0) == spec_pair_off_err(
                d,
                base as int,
                fsize as int,
                e,
                vf as int,
            ),
        decreases fsize - vf,
    {
        let x = field_annotations[vf as usize].annotations_off;
        if !(x == 0 || (x as usize) < dlen) {
            return Err(
                DexError::new(DexErrorKind::OffsetOutOfRange, base + 8 * vf as usize + 4),
            );
        }
        vf = vf + 1;
    }
    let mut vm: u32 = 0;
    while vm < msize
        invariant
            vm <= msize,
            d == data@,
            d.len() <= usize::MAX,
            dlen == d.len(),
            pos + 16 <= d.len(),
            base == pos + 16,
            mbase == base + 8 * (fsize as int),
            fsize == spec_u32_at(d, pos as int + 4, e),
            msize == spec_u32_at(d, pos as int + 8, e),
            psize == spec_u32_at(d, pos as int + 12, e),
            base as int + 8 * (fsize as int) + 8 * (msize as int) + 8 * (psize as int) <= d.len(),
            method_annotations@.len() == msize,
            forall|j: int|
                0 <= j < msize ==> method_annotations@[j] == (MethodAnnotation {
                    method_idx: spec_u32_at(d, mbase + 8 * j, e),
                    annotations_off: spec_u32_at(d, mbase + 8 * j + 4, e),
                }),
            class_annotations_off == spec_u32_at(d, pos as int, e),
            class_annotations_off == 0 || class_annotations_off < d.len(),
            spec_pair_off_err(d, base as int, fsize as int, e, 0) is None,
            spec_pair_off_err(d, mbase as int, msize as int, e, 0) == spec_pair_off_err(
                d,
                mbase as int,
                msize as int,
                e,
                vm as int,
            ),
        decreases msize - vm,
    {
        let x = method_annotations[vm as usize].annotations_off;
        if !(x == 0 || (x as usize) < dlen) {
            return Err(
                DexError::new(DexErrorKind::OffsetOutOfRange, mbase + 8 * vm as usize + 4),
            );
        }
        vm = vm + 1;
    }
    let mut vp: u32 = 0;
    while vp < psize
        invariant
            vp <= psize,
            d == data@,
            d.len() <= usize::MAX,
            dlen == d.len(),
            pos + 16 <= d.len(),
            base == pos + 16,
            mbase == base + 8 * (fsize as int),
            pbase == base + 8 * (fsize as int) + 8 * (msize as int),
            fsize == spec_u32_at(d, pos as int + 4, e),
            msize == spec_u32_at(d, pos as int + 8, e),
            psize == spec_u32_at(d, pos as int + 12, e),
            base as int + 8 * (fsize as int) + 8 * (msize as int) + 8 * (psize as int) <= d.len(),
            parameter_annotations@.len() == psize,
            forall|j: int|
                0 <= j < psize ==> parameter_annotations@[j] == (ParameterAnnotation {
                    method_idx: spec_u32_at(d, pbase + 8 * j, e),
                    annotations_off: spec_u32_at(d, pbase + 8 * j + 4, e),
                }),
            class_annotations_off == spec_u32_at(d, pos as int, e),
            class_annotations_off == 0 || class_annotations_off < d.len(),
            spec_pair_off_err(d, base as int, fsize as int, e, 0) is None,
            spec_pair_off_err(d, mbase as int, msize as int, e, 0) is None,
            spec_pair_off_err(d, pbase as int, psize as int, e, 0) == spec_pair_off_err(
                d,
                pbase as int,
                psize as int,
                e,
                vp as int,
            ),
        decreases psize - vp,
    {
        let x = parameter_annotations[vp as usize].annotations_off;
        if !(x == 0 || (x as usize) < dlen) {
            return Err(
                DexError::new(DexErrorKind::OffsetOutOfRange, pbase + 8 * vp as usize + 4),
            );
        }
        vp = vp + 1;
    }
    let dir = AnnotationsDirectory {
        class_annotations_off,
        field_annotations,
        method_annotations,
        parameter_annotations,
    };
    proof {
        let base_i = pos as int + 16;
        assert(dir@.field_annotations =~= Seq::new(
            fsize as nat,
            |i: int|
                FieldAnnotation {
                    field_idx: spec_u32_at(d, base_i + 8 * i, e),
                    annotations_off: spec_u32_at(d, base_i + 8 * i + 4, e),
                },
        ));
        assert(dir@.method_annotations =~= Seq::new(
            msize as nat,
            |i: int|
                MethodAnnotation {
                    method_idx: spec_u32_at(d, base_i + 8 * (fsize as int) + 8 * i, e),
                    annotations_off: spec_u32_at(d, base_i + 8 * (fsize as int) + 8 * i + 4, e),
                },
        ));
        assert(dir@.parameter_annotations =~= Seq::new(
            psize as nat,
            |i: int|
                ParameterAnnotation {
                    method_idx: spec_u32_at(
                        d,
                        base_i + 8 * (fsize as int) + 8 * (msize as int) + 8 * i,
                        e,
                    ),
                    annotations_off: spec_u32_at(
                        d,
                        base_i + 8 * (fsize as int) + 8 * (msize as int) + 8 * i + 4,
                        e,
                    ),
                },
        ));
    }
    Ok((dir, pbase + 8 * psize as usize))
}

/// Reads the annotations directory section named by the map, if present.
pub fn parse_annotations_directories(map_list: &Vec<MapItem>, data: &[u8], e: Endian) -> (r: Result<
    Vec<AnnotationsDirectory>,
    DexError,
>)
    ensures
        ({
            let d = data@;
            match spec_find_type(map_list@, 0x2006) {
                None => r matches Ok(v) && v@.len() == 0,
                Some(item) => match spec_ann_dirs(d, item.offset as int, item.size as int, e) {
                    Ok(p) => r matches Ok(v) && spec_ann_dir_views(v@) == p.0,
                    Err(e2) => r == Err::<Vec<AnnotationsDirectory>, DexError>(e2),
                },
            }
        }),
{
    let ghost d = data@;
    let item = match find_type_in_map(map_list, 0x2006) {
        None => {
            let v: Vec<AnnotationsDirectory> = Vec::new();
            return Ok(v);
        },
        Some(item) => item,
    };
    let count = item.size;
    let mut v: Vec<AnnotationsDirectory> = Vec::new();
    let mut cur: usize = item.offset as usize;
    let mut i: u32 = 0;
    while i < count
        invariant
            i <= count,
            d == data@,
            spec_find_type(map_list@, 0x2006) == Some(item),
            count == item.size,
            v@.len() == i,
            match spec_ann_dirs(d, item.offset as int, count as int, e) {
                Ok(p) => match spec_ann_dirs(d, cur as int, count - i, e) {
                    Ok(q) => p.0 == spec_ann_dir_views(v@) + q.0 && p.1 == q.1,
                    Err(_) => false,
                },
                Err(e2) => match spec_ann_dirs(d, cur as int, count - i, e) {
                    Ok(_) => false,
                    Err(e3) => e2 == e3,
                },
            },
        decreases count - i,
    {
        match parse_ann_dir(data, cur, e) {
            Ok((x, p)) => {
                let ghost old_views = spec_ann_dir_views(v@);
                proof {
                    if let Ok((s2, _)) = spec_ann_dirs(d, p as int, count - i - 1, e) {
                        assert((old_views + seq![x@]) + s2 =~= old_views + (seq![x@] + s2));
                    }
                }
                v.push(x);
                proof {
                    assert(spec_ann_dir_views(v@) =~= old_views + seq![x@]);
                }
                cur = p;
            },
            Err(e2) => {
                return Err(e2);
            },
        }
        i = i + 1;
    }
    Ok(v)
}

/// The first stored offset, from index `k` on, that is neither absent nor
/// inside the image.
pub open spec fn spec_u32_entry_err(d: Seq<u8>, base: int, size: int, e: Endian, k: int) -> Option<
    DexError,
>
    decreases size - k,
{
    if k < 0 || k >= size {
        None
    } else {
        let x = spec_u32_at(d, base + 4 * k, e);
        if !(x == 0 || x < d.len()) {
            Some(derr(DexErrorKind::OffsetOutOfRange, base + 4 * k))
        } else {
            spec_u32_entry_err(d, base, size, e, k + 1)
        }
    }
}

/// Every stored offset is absent or inside the image.
pub open spec fn spec_u32_list_values_ok(d: Seq<u8>, s: Seq<u32>) -> bool {
    forall|j: int| 0 <= j < s.len() ==> ((#[trigger] s[j]) == 0 || s[j] < d.len())
}

proof fn lemma_u32_entries_ok(d: Seq<u8>, base: int, size: int, e: Endian, k: int)
    requires
        0 <= k,
        spec_u32_entry_err(d, base, size, e, k) is None,
    ensures
        forall|j: int|
            k <= j < size ==> (#[trigger] spec_u32_at(d, base + 4 * j, e) == 0 || spec_u32_at(
                d,
                base + 4 * j,
                e,
            ) < d.len()),
    decreases size - k,
{
    if 0 <= k < size {
        lemma_u32_entries_ok(d, base, size, e, k + 1);
    }
}

/// Decodes one offset set: a count, then that many `u32` offsets, each
/// refused unless absent or inside the image.
pub open spec fn spec_u32_list_at(d: Seq<u8>, pos: int, e: Endian) -> Result<
    (Seq<u32>, int),
    DexError,
> {
    if pos < 0 || pos + 4 > d.len() {
        Err(derr(DexErrorKind::Truncated, pos))
    } else {
        let size = spec_u32_at(d, pos, e) as int;
        if pos + 4 + 4 * size > d.len() {
            Err(derr(DexErrorKind::Truncated, pos + 4))
        } else {
            match spec_u32_entry_err(d, pos + 4, size, e, 0) {
                Some(err) => Err(err),
                None => Ok(
                    (
                        Seq::new(size as nat, |i: int| spec_u32_at(d, pos + 4 + 4 * i, e)),
                        pos + 4 + 4 * size,
                    ),
                ),
            }
        }
    }
}

/// Decodes `count` consecutive offset sets.
pub open spec fn spec_u32_lists(d: Seq<u8>, pos: int, count: int, e: Endian) -> Result<
    (Seq<Seq<u32>>, int),
    DexError,
>
    decreases count,
{
    if count <= 0 {
        Ok((Seq::empty(), pos))
    } else {
        match spec_u32_list_at(d, pos, e) {
            Err(e2) => Err(e2),
            Ok((l, p)) => match spec_u32_lists(d, p, count - 1, e) {
                Err(e2) => Err(e2),
                Ok((s, end)) => Ok((seq![l] + s, end)),
            },
        }
    }
}

/// Views a vector of offset sets element by element.
pub open spec fn spec_u32_list_views(s: Seq<Vec<u32>>) -> Seq<Seq<u32>> {
    Seq::new(s.len(), |i: int| s[i]@)
}

fn parse_u32_list(data: &[u8], pos: usize, e: Endian) -> (r: Result<(Vec<u32>, usize), DexError>)
    ensures
        match spec_u32_list_at(data@, pos as int, e) {
            Ok(p) => r matches Ok(q) && q.0@ == p.0 && q.1 == p.1 && spec_u32_list_values_ok(
                data@,
                q.0@,
            ),
            Err(e2) => r == Err::<(Vec<u32>, usize), DexError>(e2),
        },
{
    let ghost d = data@;
    let (size, p0) = match read_u32(data, pos, e) {
        Ok(p) => p,
        Err(err) => {
            return Err(err);
        },
    };
    proof {
        vstd::arithmetic::div_mod::lemma_fundamental_div_mod((data.len() - p0) as int, 4);
    }
    if (data.len() - p0) as u64 / 4 < size as u64 {
        return Err(DexError::new(DexErrorKind::Truncated, p0));
    }
    let mut v: Vec<u32> = Vec::new();
    let mut i: u32 = 0;
    while i < size
        invariant
            i <= size,
            d == data@,
            p0 == pos + 4,
            p0 + 4 * size <= data.len(),
            v@.len() == i,
            forall|j: int| 0 <= j < i ==> v@[j] == spec_u32_at(d, p0 + 4 * j, e),
        decreases size - i,
    {
        let (u, _) = match read_u32(data, p0 + 4 * i as usize, e) {
            Ok(p) => p,
            Err(err) => {
                return Err(err);
            },
        };
        v.push(u);
        i = i + 1;
    }
    proof {
        assert(v@ =~= Seq::new(size as nat, |j: int| spec_u32_at(d, pos as int + 4 + 4 * j, e)));
    }
    let dlen = data.len();
    proof {
        assert(d.len() == dlen as int);
    }
    let mut k: u32 = 0;
    while k < size
        invariant
            k <= size,
            d == data@,
            d.len() <= usize::MAX,
            dlen == d.len(),
            p0 == pos + 4,
            size == spec_u32_at(d, pos as int, e),
            p0 + 4 * size <= data.len(),
            v@.len() == size,
            forall|j: int| 0 <= j < size ==> v@[j] == spec_u32_at(d, p0 + 4 * j, e),
            spec_u32_entry_err(d, p0 as int, size as int, e, 0) == spec_u32_entry_err(
                d,
                p0 as int,
                size as int,
                e,
                k as int,
            ),
        decreases size - k,
    {
        let x = v[k as usize];
        if !(x == 0 || (x as usize) < dlen) {
            return Err(
                DexError::new(DexErrorKind::OffsetOutOfRange, p0 + 4 * k as usize),
            );
        }
        k = k + 1;
    }
    proof {
        lemma_u32_entries_ok(d, p0 as int, size as int, e, 0);
    }
    Ok((v, p0 + 4 * size as usize))
}

/// Reads the annotation set reference list section named by the map, if
/// present.
pub fn parse_annotation_set_ref_list(map_list: &Vec<MapItem>, data: &[u8], e: Endian) -> (r: Result<
    Vec<Vec<u32>>,
    DexError,
>)
    ensures
        ({
            let d = data@;
            match spec_find_type(map_list@, 0x1002) {
                None => r matches Ok(v) && v@.len() == 0,
                Some(item) => match spec_u32_lists(d, item.offset as int, item.size as int, e) {
                    Ok(p) => r matches Ok(v) && spec_u32_list_views(v@) == p.0,
                    Err(e2) => r == Err::<Vec<Vec<u32>>, DexError>(e2),
                },
            }
        }),
{
    parse_u32_list_section(map_list, data, e, 0x1002)
}

/// Reads the annotation set section named by the map, if present.
pub fn parse_annotation_set_item(map_list: &Vec<MapItem>, data: &[u8], e: Endian) -> (r: Result<
    Vec<Vec<u32>>,
    DexError,
>)
    ensures
        ({
            let d = data@;
            match spec_find_type(map_list@, 0x1003) {
                None => r matches Ok(v) && v@.len() == 0,
                Some(item) => match spec_u32_lists(d, item.offset as int, item.size as int, e) {
                    Ok(p) => r matches Ok(v) && spec_u32_list_views(v@) == p.0,
                    Err(e2) => r == Err::<Vec<Vec<u32>>, DexError>(e2),
                },
            }
        }),
{
    parse_u32_list_section(map_list, data, e, 0x1003)
}

fn parse_u32_list_section(map_list: &Vec<MapItem>, data: &[u8], e: Endian, type_code: u16) -> (r:
    Result<Vec<Vec<u32>>, DexError>)
    ensures
        ({
            let d = data@;
            match spec_find_type(map_list@, type_code) {
                None => r matches Ok(v) && v@.len() == 0,
                Some(item) => match spec_u32_lists(d, item.offset as int, item.size as int, e) {
                    Ok(p) => r matches Ok(v) && spec_u32_list_views(v@) == p.0,
                    Err(e2) => r == Err::<Vec<Vec<u32>>, DexError>(e2),
                },
            }
        }),
{
    let ghost d = data@;
    let item = match find_type_in_map(map_list, type_code) {
        None => {
            let v: Vec<Vec<u32>> = Vec::new();
            return Ok(v);
        },
        Some(item) => item,
    };
    let count = item.size;
    let mut v: Vec<Vec<u32>> = Vec::new();
    let mut cur: usize = item.offset as usize;
    let mut i: u32 = 0;
    while i < count
        invariant
            i <= count,
            d == data@,
            spec_find_type(map_list@, type_code) == Some(item),
            count == item.size,
            v@.len() == i,
            match spec_u32_lists(d, item.offset as int, count as int, e) {
                Ok(p) => match spec_u32_lists(d, cur as int, count - i, e) {
                    Ok(q) => p.0 == spec_u32_list_views(v@) + q.0 && p.1 == q.1,
                    Err(_) => false,
                },
                Err(e2) => match spec_u32_lists(d, cur as int, count - i, e) {
                    Ok(_) => false,
                    Err(e3) => e2 == e3,
                },
            },
        decreases count - i,
    {
        match parse_u32_list(data, cur, e) {
            Ok((l, p)) => {
                let ghost old_views = spec_u32_list_views(v@);
                proof {
                    if let Ok((s2, _)) = spec_u32_lists(d, p as int, count - i - 1, e) {
                        assert((old_views + seq![l@]) + s2 =~= old_views + (seq![l@] + s2));
                    }
                }
                v.push(l);
                proof {
                    assert(spec_u32_list_views(v@) =~= old_views + seq![l@]);
                }
                cur = p;
            },
            Err(e2) => {
                return Err(e2);
            },
        }
        i = i + 1;
    }
    Ok(v)
}

/// Decodes one annotation item: a visibility byte, then the annotation body.
pub open spec fn spec_annotation_item_at(d: Seq<u8>, pos: int) -> Result<
    (AnnotationItemV, int),
    DexError,
> {
    if pos < 0 || pos >= d.len() {
        Err(derr(DexErrorKind::Truncated, pos))
    } else {
        let b = d[pos];
        if b == 0 || b == 1 || b == 2 {
            let vis = if b == 0 {
                Visibility::VisibilityBuild
            } else if b == 1 {
                Visibility::VisibilityRuntime
            } else {
                Visibility::VisibilitySystem
            };
            match spec_decode_annotation(d, pos + 1, ENCODED_VALUE_DEPTH_CAP as nat) {
                Err(e) => Err(e),
                Ok((a, end)) => Ok((AnnotationItemV { visibility: vis, annotation: a }, end)),
            }
        } else {
            Err(derr(DexErrorKind::BadVisibility, pos))
        }
    }
}

/// Decodes `count` consecutive annotation items.
pub open spec fn spec_annotation_items(d: Seq<u8>, pos: int, count: int) -> Result<
    (Seq<AnnotationItemV>, int),
    DexError,
>
    decreases count,
{
    if count <= 0 {
        Ok((Seq::empty(), pos))
    } else {
        match spec_annotation_item_at(d, pos) {
            Err(e) => Err(e),
            Ok((x, p)) => match spec_annotation_items(d, p, count - 1) {
                Err(e) => Err(e),
                Ok((s, end)) => Ok((seq![x] + s, end)),
            },
        }
    }
}

/// Views a vector of annotation items element by element.
pub open spec fn spec_annotation_item_views(s: Seq<AnnotationItem>) -> Seq<AnnotationItemV> {
    Seq::new(s.len(), |i: int| s[i]@)
}

fn parse_annotation_item_one(data: &[u8], pos: usize) -> (r: Result<(AnnotationItem, usize), DexError>)
    ensures
        match spec_annotation_item_at(data@, pos as int) {
            Ok(p) => r matches Ok(q) && q.0@ == p.0 && q.1 == p.1,
            Err(e) => r == Err::<(AnnotationItem, usize), DexError>(e),
        },
{
    if pos >= data.len() {
        return Err(DexError::new(DexErrorKind::Truncated, pos));
    }
    let b = data[pos];
    let visibility = if b == 0 {
        Visibility::VisibilityBuild
    } else if b == 1 {
        Visibility::VisibilityRuntime
    } else if b == 2 {
        Visibility::VisibilitySystem
    } else {
        return Err(DexError::new(DexErrorKind::BadVisibility, pos));
    };
    match EncodedAnnotation::from_reader(data, pos + 1) {
        Ok((annotation, end)) => Ok((AnnotationItem { visibility, annotation }, end)),
        Err(e) => Err(e),
    }
}

/// Reads the annotation item section named by the map, if present.
pub fn parse_annotation_item(map_list: &Vec<MapItem>, data: &[u8]) -> (r: Result<
    Vec<AnnotationItem>,
    DexError,
>)
    ensures
        ({
            let d = data@;
            match spec_find_type(map_list@, 0x2004) {
                None => r matches Ok(v) && v@.len() == 0,
                Some(item) => match spec_annotation_items(d, item.offset as int, item.size as int) {
                    Ok(p) => r matches Ok(v) && spec_annotation_item_views(v@) == p.0,
                    Err(e2) => r == Err::<Vec<AnnotationItem>, DexError>(e2),
                },
            }
        }),
{
    let ghost d = data@;
    let item = match find_type_in_map(map_list, 0x2004) {
        None => {
            let v: Vec<AnnotationItem> = Vec::new();
            return Ok(v);
        },
        Some(item) => item,
    };
    let count = item.size;
    let mut v: Vec<AnnotationItem> = Vec::new();
    let mut cur: usize = item.offset as usize;
    let mut i: u32 = 0;
    while i < count
        invariant
            i <= count,
            d == data@,
            spec_find_type(map_list@, 0x2004) == Some(item),
            count == item.size,
            v@.len() == i,
            match spec_annotation_items(d, item.offset as int, count as int) {
                Ok(p) => match spec_annotation_items(d, cur as int, count - i) {
                    Ok(q) => p.0 == spec_annotation_item_views(v@) + q.0 && p.1 == q.1,
                    Err(_) => false,
                },
                Err(e2) => match spec_annotation_items(d, cur as int, count - i) {
                    Ok(_) => false,
                    Err(e3) => e2 == e3,
                },
            },
        decreases count - i,
    {
        match parse_annotation_item_one(data, cur) {
            Ok((x, p)) => {
                let ghost old_views = spec_annotation_item_views(v@);
                proof {
                    if let Ok((s2, _)) = spec_annotation_items(d, p as int, count - i - 1) {
                        assert((old_views + seq![x@]) + s2 =~= old_views + (seq![x@] + s2));
                    }
                }
                v.push(x);
                proof {
                    assert(spec_annotation_item_views(v@) =~= old_views + seq![x@]);
                }
                cur = p;
            },
            Err(e2) => {
                return Err(e2);
            },
        }
        i = i + 1;
    }
    Ok(v)
}

/// Decodes `count` extra call-site arguments, each a full encoded value.
pub open spec fn spec_call_site_args(d: Seq<u8>, pos: int, count: int) -> Result<
    (Seq<EncodedValueV>, int),
    DexError,
>
    decreases count,
{
    if count <= 0 {
        Ok((Seq::empty(), pos))
    } else {
        match spec_decode_value(d, pos, ENCODED_VALUE_DEPTH_CAP as nat) {
            Err(e) => Err(e),
            Ok((x, p)) => match spec_call_site_args(d, p, count - 1) {
                Err(e) => Err(e),
                Ok((s, end)) => Ok((seq![x] + s, end)),
            },
        }
    }
}

/// Decodes one call-site item at `off`: an encoded array whose first three
/// entries must be a method handle, a string, and a method type.
pub open spec fn spec_call_site_at(d: Seq<u8>, off: int) -> Result<(CallSiteItemV, int), DexError> {
    match spec_read_uleb128(d, off) {
        Err(e) => Err(e),
        Ok((size, p0)) => if size < 3 {
            Err(derr(DexErrorKind::CallSitePrefix, off))
        } else {
            match spec_decode_value(d, p0 as int, ENCODED_VALUE_DEPTH_CAP as nat) {
                Err(e) => Err(e),
                Ok((v1, p1)) => match spec_decode_value(d, p1, ENCODED_VALUE_DEPTH_CAP as nat) {
                    Err(e) => Err(e),
                    Ok((v2, p2)) => match spec_decode_value(d, p2, ENCODED_VALUE_DEPTH_CAP as nat) {
                        Err(e) => Err(e),
                        Ok((v3, p3)) => match (v1, v2, v3) {
                            (
                                EncodedValueV::MethodHandle(mh),
                                EncodedValueV::String(nm),
                                EncodedValueV::MethodType(mt),
                            ) => match spec_call_site_args(d, p3, size - 3) {
                                Err(e) => Err(e),
                                Ok((args, end)) => Ok(
                                    (
                                        CallSiteItemV {
                                            method_handle_idx: mh,
                                            method_name_idx: nm,
                                            method_type_idx: mt,
                                            args,
                                        },
                                        end,
                                    ),
                                ),
                            },
                            _ => Err(derr(DexErrorKind::CallSitePrefix, off)),
                        },
                    },
                },
            }
        },
    }
}

fn parse_call_site_one(data: &[u8], off: u32) -> (r: Result<CallSiteItem, DexError>)
    ensures
        match spec_call_site_at(data@, off as int) {
            Ok(p) => r matches Ok(q) && q@ == p.0,
            Err(e) => r == Err::<CallSiteItem, DexError>(e),
        },
{
    let ghost d = data@;
    let (size, p0) = match read_uleb128(data, off as usize) {
        Ok(p) => p,
        Err(e) => {
            return Err(e);
        },
    };
    if size < 3 {
        return Err(DexError::new(DexErrorKind::CallSitePrefix, off as usize));
    }
    let (v1, p1) = match EncodedValue::from_reader(data, p0) {
        Ok(p) => p,
        Err(e) => {
            return Err(e);
        },
    };
    let (v2, p2) = match EncodedValue::from_reader(data, p1) {
        Ok(p) => p,
        Err(e) => {
            return Err(e);
        },
    };
    let (v3, p3) = match EncodedValue::from_reader(data, p2) {
        Ok(p) => p,
        Err(e) => {
            return Err(e);
        },
    };
    let method_handle_idx = match v1 {
        EncodedValue::MethodHandle(mh) => mh,
        _ => {
            return Err(DexError::new(DexErrorKind::CallSitePrefix, off as usize));
        },
    };
    let method_name_idx = match v2 {
        EncodedValue::String(nm) => nm,
        _ => {
            return Err(DexError::new(DexErrorKind::CallSitePrefix, off as usize));
        },
    };
    let method_type_idx = match v3 {
        EncodedValue::MethodType(mt) => mt,
        _ => {
            return Err(DexError::new(DexErrorKind::CallSitePrefix, off as usize));
        },
    };
    let argc = size - 3;
    let mut args: Vec<EncodedValue> = Vec::new();
    let mut cur: usize = p3;
    let mut i: u64 = 0;
    let ghost args_views = Seq::new(args@.len(), |j: int| args@[j]@);
    while i < argc
        invariant
            i <= argc,
            d == data@,
            spec_read_uleb128(d, off as int) == Ok::<(u64, usize), DexError>((size, p0)),
            size >= 3,
            argc == size - 3,
            spec_decode_value(d, p0 as int, ENCODED_VALUE_DEPTH_CAP as nat) == Ok::<
                (EncodedValueV, int),
                DexError,
            >((EncodedValueV::MethodHandle(method_handle_idx), p1 as int)),
            spec_decode_value(d, p1 as int, ENCODED_VALUE_DEPTH_CAP as nat) == Ok::<
                (EncodedValueV, int),
                DexError,
            >((EncodedValueV::String(method_name_idx), p2 as int)),
            spec_decode_value(d, p2 as int, ENCODED_VALUE_DEPTH_CAP as nat) == Ok::<
                (EncodedValueV, int),
                DexError,
            >((EncodedValueV::MethodType(method_type_idx), p3 as int)),
            match spec_call_site_args(d, p3 as int, argc as int) {
                Ok(p) => match spec_call_site_args(d, cur as int, argc - i) {
                    Ok(q) => p.0 == Seq::new(args@.len(), |j: int| args@[j]@) + q.0 && p.1 == q.1,
                    Err(_) => false,
                },
                Err(e) => match spec_call_site_args(d, cur as int, argc - i) {
                    Ok(_) => false,
                    Err(e2) => e == e2,
                },
            },
        decreases argc - i,
    {
        match EncodedValue::from_reader(data, cur) {
            Ok((x, p)) => {
                let ghost old_views = Seq::new(args@.len(), |j: int| args@[j]@);
                proof {
                    if let Ok((s2, _)) = spec_call_site_args(d, p as int, argc - i - 1) {
                        assert((old_views + seq![x@]) + s2 =~= old_views + (seq![x@] + s2));
                    }
                }
                args.push(x);
                proof {
                    assert(Seq::new(args@.len(), |j: int| args@[j]@) =~= old_views + seq![x@]);
                }
                cur = p;
            },
            Err(e) => {
                return Err(e);
            },
        }
        i = i + 1;
    }
    Ok(CallSiteItem { method_handle_idx, method_name_idx, method_type_idx, args })
}

/// What loading all call sites from their id offsets yields: the item at
/// each offset, or the first failure.
pub open spec fn spec_call_sites_err(d: Seq<u8>, offs: Seq<u32>, k: int) -> Option<DexError>
    decreases offs.len() - k,
{
    if k < 0 || k >= offs.len() {
        None
    } else {
        match spec_call_site_at(d, offs[k] as int) {
            Err(e) => Some(e),
            Ok(_) => spec_call_sites_err(d, offs, k + 1),
        }
    }
}

/// Reads every call-site item the id table points at. The original format
/// note applies: each is an encoded array opening with a method handle, a
/// string and a method type, and `CallSitePrefix` reports any other shape.
pub fn parse_call_side_item(call_site_ids: &Vec<u32>, data: &[u8]) -> (r: Result<
    Vec<CallSiteItem>,
    DexError,
>)
    ensures
        ({
            let d = data@;
            let offs = call_site_ids@;
            match spec_call_sites_err(d, offs, 0) {
                Some(e) => r == Err::<Vec<CallSiteItem>, DexError>(e),
                None => r matches Ok(v) && v@.len() == offs.len() && (forall|i: int|
                    0 <= i < offs.len() ==> (spec_call_site_at(d, #[trigger] offs[i] as int)
                        matches Ok(p) && v@[i]@ == p.0)),
            }
        }),
{
    let ghost d = data@;
    let ghost offs = call_site_ids@;
    let n = call_site_ids.len();
    let mut v: Vec<CallSiteItem> = Vec::new();
    let mut i: usize = 0;
    while i < n
        invariant
            i <= n,
            d == data@,
            offs == call_site_ids@,
            n == call_site_ids.len(),
            v@.len() == i,
            spec_call_sites_err(d, offs, 0) == spec_call_sites_err(d, offs, i as int),
            forall|j: int|
                0 <= j < i ==> (spec_call_site_at(d, #[trigger] offs[j] as int) matches Ok(p)
                    && v@[j]@ == p.0),
        decreases n - i,
    {
        match parse_call_site_one(data, call_site_ids[i]) {
            Ok(x) => {
                v.push(x);
            },
            Err(e) => {
                return Err(e);
            },
        }
        i = i + 1;
    }
    Ok(v)
}

} // verus!
