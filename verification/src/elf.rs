//! Flattening an ELF executable into the raw bytes the loader places in RAM.
//!
//! The loadable segments of an ELF64 are laid out by physical address, as
//! `objcopy -O binary` does: gaps are zero, and where segments overlap the one
//! listed later wins. The load address and the entry offset come from the ELF
//! itself. BSS (`memsz` beyond `filesz`) is left for the payload to clear.

use vstd::prelude::*;
use vstd::string::*;

use crate::le;

verus! {

broadcast use crate::le::group_le_len;

/// Offset of the entry address in the ELF64 header.
pub const E_ENTRY: usize = 24;

/// Offset of the program-header table's file offset.
pub const E_PHOFF: usize = 32;

/// Offset of the size of one program header.
pub const E_PHENTSIZE: usize = 54;

/// Offset of the number of program headers.
pub const E_PHNUM: usize = 56;

/// Segment type of loadable segments.
pub const PT_LOAD: u32 = 1;

/// Offset of the segment type in a program header.
pub const PH_TYPE: usize = 0;

/// Offset of the segment's file offset.
pub const PH_OFFSET: usize = 8;

/// Offset of the segment's physical address.
pub const PH_PADDR: usize = 24;

/// Offset of the segment's size in the file.
pub const PH_FILESZ: usize = 32;

/// Why an ELF could not be flattened.
#[derive(Debug, Clone, Copy, PartialEq, Eq, Structural)]
pub enum ElfError {
    /// Not a 64-bit little-endian image.
    Unsupported,
    /// A header field lies past the end of the file.
    Truncated,
    /// `e_phoff` does not fit the host's address space.
    BadPhoff,
    /// `p_offset` does not fit the host's address space.
    BadOffset,
    /// `p_filesz` does not fit the host's address space.
    BadFilesz,
    /// A segment's bytes lie past the end of the file.
    SegmentPastEnd,
    /// No segment has any bytes.
    NoData,
    /// The flat image does not fit the host's address space.
    TooLarge,
    /// The entry point is too far from the start of the image.
    EntryOutOfRange,
    /// An offset, an address or the image's size goes beyond what the machine
    /// can count, or the entry point lies below the image.
    Overflow,
}

impl ElfError {
    /// The error in words.
    pub open spec fn text(self) -> Seq<char> {
        match self {
            ElfError::Unsupported => "only 64-bit little-endian ELF images are supported"@,
            ElfError::Truncated => "truncated ELF"@,
            ElfError::BadPhoff => "bad e_phoff"@,
            ElfError::BadOffset => "bad p_offset"@,
            ElfError::BadFilesz => "bad p_filesz"@,
            ElfError::SegmentPastEnd => "ELF segment extends past end of file"@,
            ElfError::NoData => "ELF has no loadable data"@,
            ElfError::TooLarge => "image too large"@,
            ElfError::EntryOutOfRange => "entry offset out of range"@,
            ElfError::Overflow => "ELF address arithmetic overflows"@,
        }
    }

    /// The error in words.
    pub fn to_string(&self) -> (text: String)
        ensures
            text@ == self.text(),
    {
        match self {
            ElfError::Unsupported => "only 64-bit little-endian ELF images are supported".to_owned(),
            ElfError::Truncated => "truncated ELF".to_owned(),
            ElfError::BadPhoff => "bad e_phoff".to_owned(),
            ElfError::BadOffset => "bad p_offset".to_owned(),
            ElfError::BadFilesz => "bad p_filesz".to_owned(),
            ElfError::SegmentPastEnd => "ELF segment extends past end of file".to_owned(),
            ElfError::NoData => "ELF has no loadable data".to_owned(),
            ElfError::TooLarge => "image too large".to_owned(),
            ElfError::EntryOutOfRange => "entry offset out of range".to_owned(),
            ElfError::Overflow => "ELF address arithmetic overflows".to_owned(),
        }
    }
}

/// Whether `data` starts with the ELF magic.
pub open spec fn has_elf_magic(data: Seq<u8>) -> bool {
    data.len() >= 4 && data.take(4) == seq![0x7Fu8, 0x45, 0x4C, 0x46]
}

/// Returns whether `data` starts with the ELF magic.
pub fn is_elf(data: &[u8]) -> (yes: bool)
    ensures
        yes == has_elf_magic(data@),
{
    let yes: bool = data.len() >= 4 && data[0] == 0x7F && data[1] == 0x45 && data[2] == 0x4C
        && data[3] == 0x46;
    proof {
        let magic = seq![0x7Fu8, 0x45, 0x4C, 0x46];
        if yes {
            assert(data@.take(4) =~= magic);
        } else if data@.len() >= 4 {
            assert(data@.take(4)[0] == data@[0] && data@.take(4)[1] == data@[1] && data@.take(4)[2]
                == data@[2] && data@.take(4)[3] == data@[3]);
            assert(magic[0] == 0x7F && magic[1] == 0x45 && magic[2] == 0x4C && magic[3] == 0x46);
        }
    }
    yes
}

/// Whether `n` bytes at `off` can be read.
pub open spec fn readable(d: Seq<u8>, off: int, n: int) -> Result<(), ElfError> {
    if off + n > usize::MAX {
        Err(ElfError::Overflow)
    } else if off + n > d.len() {
        Err(ElfError::Truncated)
    } else {
        Ok(())
    }
}

fn in_file(d: &[u8], off: usize, n: usize) -> (r: Result<(), ElfError>)
    ensures
        r == readable(d@, off as int, n as int),
{
    match off.checked_add(n) {
        None => Err(ElfError::Overflow),
        Some(end) => if end > d.len() {
            Err(ElfError::Truncated)
        } else {
            Ok(())
        },
    }
}

/// The 16-bit field at `off`.
pub open spec fn field16(d: Seq<u8>, off: int) -> Result<u16, ElfError> {
    match readable(d, off, 2) {
        Err(e) => Err(e),
        Ok(()) => Ok(le::u16_at(d, off)),
    }
}

/// The 32-bit field at `off`.
pub open spec fn field32(d: Seq<u8>, off: int) -> Result<u32, ElfError> {
    match readable(d, off, 4) {
        Err(e) => Err(e),
        Ok(()) => Ok(le::u32_at(d, off)),
    }
}

/// The 64-bit field at `off`.
pub open spec fn field64(d: Seq<u8>, off: int) -> Result<u64, ElfError> {
    match readable(d, off, 8) {
        Err(e) => Err(e),
        Ok(()) => Ok(le::u64_at(d, off)),
    }
}

/// Reads the little-endian 16-bit field at `off`.
pub fn rd_u16(d: &[u8], off: usize) -> (r: Result<u16, ElfError>)
    ensures
        r == field16(d@, off as int),
{
    match in_file(d, off, 2) {
        Err(e) => Err(e),
        Ok(()) => Ok(le::rd_u16(d, off)),
    }
}

/// Reads the little-endian 32-bit field at `off`.
pub fn rd_u32(d: &[u8], off: usize) -> (r: Result<u32, ElfError>)
    ensures
        r == field32(d@, off as int),
{
    match in_file(d, off, 4) {
        Err(e) => Err(e),
        Ok(()) => Ok(le::rd_u32(d, off)),
    }
}

/// Reads the little-endian 64-bit field at `off`.
pub fn rd_u64(d: &[u8], off: usize) -> (r: Result<u64, ElfError>)
    ensures
        r == field64(d@, off as int),
{
    match in_file(d, off, 8) {
        Err(e) => Err(e),
        Ok(()) => Ok(le::rd_u64(d, off)),
    }
}

/// A segment's bytes and the physical address they go to, in the model.
pub struct SegmentView {
    /// Physical address of the first byte.
    pub paddr: u64,
    /// The bytes.
    pub bytes: Seq<u8>,
}

/// A segment's bytes in the file and the physical address they go to.
#[derive(Clone, Copy)]
struct Segment<'a> {
    paddr: u64,
    src: &'a [u8],
}

impl<'a> View for Segment<'a> {
    type V = SegmentView;

    closed spec fn view(&self) -> SegmentView {
        SegmentView { paddr: self.paddr, bytes: self.src@ }
    }
}

spec fn views(segs: Seq<Segment>) -> Seq<SegmentView> {
    segs.map_values(|s: Segment| s@)
}

/// What the program header at `ph` contributes: a segment, or nothing, if it is
/// not loadable or has no bytes.
pub open spec fn header_segment(d: Seq<u8>, ph: int) -> Result<Option<SegmentView>, ElfError> {
    match field32(d, ph + PH_TYPE) {
        Err(e) => Err(e),
        Ok(ty) => if ty != PT_LOAD {
            Ok(None)
        } else {
            match (
                field64(d, ph + PH_OFFSET),
                field64(d, ph + PH_PADDR),
                field64(d, ph + PH_FILESZ),
            ) {
                (Err(e), _, _) => Err(e),
                (Ok(offset), paddr, filesz) => if offset > usize::MAX {
                    Err(ElfError::BadOffset)
                } else {
                    match (paddr, filesz) {
                        (Err(e), _) => Err(e),
                        (_, Err(e)) => Err(e),
                        (Ok(paddr), Ok(filesz)) => segment(d, offset, paddr, filesz),
                    }
                },
            }
        },
    }
}

/// The segment of `filesz` bytes at `offset` in the file.
pub open spec fn segment(d: Seq<u8>, offset: u64, paddr: u64, filesz: u64) -> Result<
    Option<SegmentView>,
    ElfError,
> {
    if filesz > usize::MAX {
        Err(ElfError::BadFilesz)
    } else if filesz == 0 {
        Ok(None)
    } else if offset + filesz > usize::MAX {
        Err(ElfError::Overflow)
    } else if offset + filesz > d.len() {
        Err(ElfError::SegmentPastEnd)
    } else if paddr + filesz > u64::MAX {
        Err(ElfError::Overflow)
    } else {
        Ok(Some(SegmentView { paddr, bytes: d.subrange(offset as int, offset + filesz) }))
    }
}

/// The segments of the program headers `i..phnum`, or the first error.
pub open spec fn segments(
    d: Seq<u8>,
    phoff: int,
    phentsize: int,
    phnum: int,
    i: int,
) -> Result<Seq<SegmentView>, ElfError>
    decreases phnum - i,
{
    if i >= phnum {
        Ok(Seq::empty())
    } else {
        match header_segment(d, phoff + i * phentsize) {
            Err(e) => Err(e),
            Ok(one) => match segments(d, phoff, phentsize, phnum, i + 1) {
                Err(e) => Err(e),
                Ok(rest) => Ok(
                    match one {
                        None => rest,
                        Some(s) => seq![s] + rest,
                    },
                ),
            },
        }
    }
}

/// The lowest address of any segment.
pub open spec fn link_base(segs: Seq<SegmentView>) -> u64
    decreases segs.len(),
{
    if segs.len() == 0 {
        u64::MAX
    } else {
        let rest = link_base(segs.drop_last());
        if segs.last().paddr < rest {
            segs.last().paddr
        } else {
            rest
        }
    }
}

/// The first address behind all segments.
pub open spec fn link_top(segs: Seq<SegmentView>) -> int
    decreases segs.len(),
{
    if segs.len() == 0 {
        0
    } else {
        let rest = link_top(segs.drop_last());
        let end = segs.last().paddr + segs.last().bytes.len();
        if end > rest {
            end
        } else {
            rest
        }
    }
}

/// The byte that goes to address `a`: that of the last segment that covers it,
/// zero if there is none.
pub open spec fn byte_at(segs: Seq<SegmentView>, a: int) -> u8
    decreases segs.len(),
{
    if segs.len() == 0 {
        0
    } else {
        let s = segs.last();
        if s.paddr <= a < s.paddr + s.bytes.len() {
            s.bytes[a - s.paddr]
        } else {
            byte_at(segs.drop_last(), a)
        }
    }
}

/// The bytes from the lowest to the highest address of any segment.
pub open spec fn flat_image(segs: Seq<SegmentView>) -> Seq<u8> {
    let base = link_base(segs) as int;
    Seq::new((link_top(segs) - base) as nat, |i: int| byte_at(segs, base + i))
}

/// What flattening an ELF gives: link base, entry offset and image.
pub open spec fn flattened(d: Seq<u8>) -> Result<(u64, u32, Seq<u8>), ElfError> {
    if d.len() <= 5 || d[4] != 2 || d[5] != 1 {
        Err(ElfError::Unsupported)
    } else {
        match (field64(d, E_ENTRY as int), field64(d, E_PHOFF as int)) {
            (Err(e), _) => Err(e),
            (_, Err(e)) => Err(e),
            (Ok(entry), Ok(phoff)) => if phoff > usize::MAX {
                Err(ElfError::BadPhoff)
            } else {
                match (field16(d, E_PHENTSIZE as int), field16(d, E_PHNUM as int)) {
                    (Err(e), _) => Err(e),
                    (_, Err(e)) => Err(e),
                    (Ok(phentsize), Ok(phnum)) => match segments(
                        d,
                        phoff as int,
                        phentsize as int,
                        phnum as int,
                        0,
                    ) {
                        Err(e) => Err(e),
                        Ok(segs) => laid_out(segs, entry),
                    },
                }
            },
        }
    }
}

/// The segments as one image.
pub open spec fn laid_out(segs: Seq<SegmentView>, entry: u64) -> Result<
    (u64, u32, Seq<u8>),
    ElfError,
> {
    let base = link_base(segs);
    let size = link_top(segs) - base;
    if segs.len() == 0 {
        Err(ElfError::NoData)
    } else if size > usize::MAX {
        Err(ElfError::TooLarge)
    } else if size > isize::MAX {
        Err(ElfError::Overflow)
    } else if entry < base {
        Err(ElfError::Overflow)
    } else if entry - base > u32::MAX {
        Err(ElfError::EntryOutOfRange)
    } else {
        Ok((base, (entry - base) as u32, flat_image(segs)))
    }
}

/// What a flattening result means in the model.
pub open spec fn flattened_view(r: Result<(u64, u32, Vec<u8>), ElfError>) -> Result<
    (u64, u32, Seq<u8>),
    ElfError,
> {
    match r {
        Err(e) => Err(e),
        Ok((base, entry_off, bytes)) => Ok((base, entry_off, bytes@)),
    }
}

fn to_index(v: u64) -> (r: Option<usize>)
    ensures
        v <= usize::MAX ==> r == Some(v as usize),
        v > usize::MAX ==> r is None,
{
    if v <= usize::MAX as u64 {
        Some(v as usize)
    } else {
        None
    }
}

/// Offset `rel` behind `base`, as a place in the file.
fn behind(base: usize, rel: usize) -> (r: Result<usize, ElfError>)
    ensures
        base + rel <= usize::MAX ==> r == Ok::<usize, ElfError>((base + rel) as usize),
        base + rel > usize::MAX ==> r == Err::<usize, ElfError>(ElfError::Overflow),
{
    match base.checked_add(rel) {
        Some(at) => Ok(at),
        None => Err(ElfError::Overflow),
    }
}

/// Reads the program header at `ph`.
fn read_segment<'a>(d: &'a [u8], ph: usize) -> (r: Result<Option<Segment<'a>>, ElfError>)
    ensures
        header_segment(d@, ph as int) == match r {
            Err(e) => Err(e),
            Ok(None) => Ok(None),
            Ok(Some(s)) => Ok(Some(s@)),
        },
        r matches Ok(Some(s)) ==> s@.paddr + s@.bytes.len() <= u64::MAX && s@.bytes.len() > 0,
{
    if rd_u32(d, behind(ph, PH_TYPE)?)? != PT_LOAD {
        return Ok(None);
    }
    let offset: usize = match to_index(rd_u64(d, behind(ph, PH_OFFSET)?)?) {
        Some(v) => v,
        None => {
            return Err(ElfError::BadOffset);
        },
    };
    let paddr: u64 = rd_u64(d, behind(ph, PH_PADDR)?)?;
    let filesz: usize = match to_index(rd_u64(d, behind(ph, PH_FILESZ)?)?) {
        Some(v) => v,
        None => {
            return Err(ElfError::BadFilesz);
        },
    };
    if filesz == 0 {
        return Ok(None);
    }
    let end: usize = behind(offset, filesz)?;
    if end > d.len() {
        return Err(ElfError::SegmentPastEnd);
    }
    if paddr.checked_add(filesz as u64).is_none() {
        return Err(ElfError::Overflow);
    }
    Ok(Some(Segment { paddr, src: &d[offset..end] }))
}

/// Reads all program headers.
fn read_segments<'a>(d: &'a [u8], phoff: usize, phentsize: u16, phnum: u16) -> (r: Result<
    Vec<Segment<'a>>,
    ElfError,
>)
    ensures
        segments(d@, phoff as int, phentsize as int, phnum as int, 0) == match r {
            Err(e) => Err(e),
            Ok(segs) => Ok(views(segs@)),
        },
        r matches Ok(segs) ==> forall|k: int|
            0 <= k < segs@.len() ==> (#[trigger] views(segs@)[k]).paddr + views(
                segs@,
            )[k].bytes.len() <= u64::MAX && views(segs@)[k].bytes.len() > 0,
{
    let mut segs: Vec<Segment<'a>> = Vec::new();
    let mut i: u16 = 0;
    let ghost whole = segments(d@, phoff as int, phentsize as int, phnum as int, 0);
    while i < phnum
        invariant
            i <= phnum,
            whole == segments(d@, phoff as int, phentsize as int, phnum as int, 0),
            whole == prefixed(
                views(segs@),
                segments(d@, phoff as int, phentsize as int, phnum as int, i as int),
            ),
            forall|k: int|
                0 <= k < segs@.len() ==> (#[trigger] views(segs@)[k]).paddr + views(
                    segs@,
                )[k].bytes.len() <= u64::MAX && views(segs@)[k].bytes.len() > 0,
        decreases phnum - i,
    {
        let skip: u32 = mul_u16(i, phentsize);
        let ph: usize = match phoff.checked_add(skip as usize) {
            Some(ph) => ph,
            None => {
                return Err(ElfError::Overflow);
            },
        };
        let ghost before = segs@;
        let one = read_segment(d, ph)?;
        proof {
            if let Ok(rest) = segments(
                d@,
                phoff as int,
                phentsize as int,
                phnum as int,
                i + 1,
            ) {
                if let Some(s) = one {
                    assert(views(before) + (seq![s@] + rest) =~= views(before.push(s)) + rest);
                }
            }
        }
        if let Some(s) = one {
            proof {
                assert forall|k: int| 0 <= k < before.push(s).len() implies (#[trigger] views(
                    before.push(s),
                )[k]).paddr + views(before.push(s))[k].bytes.len() <= u64::MAX && views(
                    before.push(s),
                )[k].bytes.len() > 0 by {
                    if k < before.len() {
                        assert(views(before.push(s))[k] == views(before)[k]);
                    }
                }
            }
            segs.push(s);
        }
        i = i + 1;
    }
    proof {
        assert(views(segs@) + Seq::<SegmentView>::empty() =~= views(segs@));
    }
    Ok(segs)
}

/// Segments read so far, before those still to come.
spec fn prefixed(done: Seq<SegmentView>, rest: Result<Seq<SegmentView>, ElfError>) -> Result<
    Seq<SegmentView>,
    ElfError,
> {
    match rest {
        Err(e) => Err(e),
        Ok(rest) => Ok(done + rest),
    }
}

fn mul_u16(a: u16, b: u16) -> (p: u32)
    ensures
        p == a * b,
{
    assert(a * b <= 0xFFFF * 0xFFFF) by (nonlinear_arith)
        requires
            a <= 0xFFFF,
            b <= 0xFFFF,
    ;
    a as u32 * b as u32
}

/// Every segment lies between base and top.
proof fn lemma_bounds(segs: Seq<SegmentView>, k: int)
    requires
        0 <= k < segs.len(),
    ensures
        link_base(segs) <= segs[k].paddr,
        segs[k].paddr + segs[k].bytes.len() <= link_top(segs),
    decreases segs.len(),
{
    if k < segs.len() - 1 {
        lemma_bounds(segs.drop_last(), k);
    }
}

/// Lowest and highest address of the segments.
fn extent(segs: &Vec<Segment<'_>>) -> (r: (u64, u64))
    requires
        forall|k: int|
            0 <= k < segs@.len() ==> (#[trigger] views(segs@)[k]).paddr + views(
                segs@,
            )[k].bytes.len() <= u64::MAX,
    ensures
        r.0 == link_base(views(segs@)),
        r.1 == link_top(views(segs@)),
{
    let mut base: u64 = u64::MAX;
    let mut top: u64 = 0;
    let mut k: usize = 0;
    let ghost all = views(segs@);
    assert(all.take(0) =~= Seq::<SegmentView>::empty());
    while k < segs.len()
        invariant
            k <= segs@.len(),
            all == views(segs@),
            base == link_base(all.take(k as int)),
            top == link_top(all.take(k as int)),
            forall|k: int|
                0 <= k < segs@.len() ==> (#[trigger] views(segs@)[k]).paddr + views(
                    segs@,
                )[k].bytes.len() <= u64::MAX,
        decreases segs@.len() - k,
    {
        let s = &segs[k];
        assert(all.take(k + 1).drop_last() =~= all.take(k as int));
        assert(all.take(k + 1).last() == s@);
        assert(views(segs@)[k as int] == s@);
        let end: u64 = s.paddr + s.src.len() as u64;
        if s.paddr < base {
            base = s.paddr;
        }
        if end > top {
            top = end;
        }
        k = k + 1;
    }
    assert(all.take(segs@.len() as int) =~= all);
    (base, top)
}

/// Lays the segments out, later ones over earlier ones.
fn lay_out(segs: &Vec<Segment<'_>>, base: u64, size: usize) -> (image: Vec<u8>)
    requires
        base == link_base(views(segs@)),
        size == link_top(views(segs@)) - base,
    ensures
        image@ == flat_image(views(segs@)),
{
    let mut image: Vec<u8> = vec![0u8; size];
    let mut k: usize = 0;
    let ghost all = views(segs@);
    while k < segs.len()
        invariant
            k <= segs@.len(),
            all == views(segs@),
            base == link_base(all),
            size == link_top(all) - base,
            image@.len() == size,
            forall|i: int| 0 <= i < size ==> image@[i] == byte_at(all.take(k as int), base + i),
        decreases segs@.len() - k,
    {
        let s = &segs[k];
        proof {
            lemma_bounds(all, k as int);
            assert(all[k as int] == s@);
            assert(all.take(k + 1).drop_last() =~= all.take(k as int));
            assert(all.take(k + 1).last() == s@);
        }
        let start: usize = (s.paddr - base) as usize;
        le::put(image.as_mut_slice(), start, s.src);
        k = k + 1;
    }
    assert(all.take(segs@.len() as int) =~= all);
    assert(image@ =~= flat_image(all));
    image
}

/// Flattens an ELF64 into `(link_base, entry_offset, bytes)` the way
/// `objcopy -O binary` does: `PT_LOAD` segments laid out by physical address,
/// with BSS (`memsz` beyond `filesz`) left implicit for the payload to clear.
pub fn flatten_elf(data: &[u8]) -> (r: Result<(u64, u32, Vec<u8>), ElfError>)
    ensures
        flattened_view(r) == flattened(data@),
{
    // e_ident[4] = EI_CLASS (2 = 64-bit), e_ident[5] = EI_DATA (1 = LE).
    if data.len() <= 5 || data[4] != 2 || data[5] != 1 {
        return Err(ElfError::Unsupported);
    }
    let entry: u64 = rd_u64(data, E_ENTRY)?;
    let phoff: usize = match to_index(rd_u64(data, E_PHOFF)?) {
        Some(v) => v,
        None => {
            return Err(ElfError::BadPhoff);
        },
    };
    let phentsize: u16 = rd_u16(data, E_PHENTSIZE)?;
    let phnum: u16 = rd_u16(data, E_PHNUM)?;
    let segs: Vec<Segment> = read_segments(data, phoff, phentsize, phnum)?;
    if segs.len() == 0 {
        return Err(ElfError::NoData);
    }
    let (base, top): (u64, u64) = extent(&segs);
    proof {
        lemma_bounds(views(segs@), 0);
    }
    let size: usize = match to_index(top - base) {
        Some(v) => v,
        None => {
            return Err(ElfError::TooLarge);
        },
    };
    if size > isize::MAX as usize || entry < base {
        return Err(ElfError::Overflow);
    }
    if entry - base > u32::MAX as u64 {
        return Err(ElfError::EntryOutOfRange);
    }
    Ok((base, (entry - base) as u32, lay_out(&segs, base, size)))
}

/// Every byte of a segment stands at its place in the flat image, unless a
/// segment listed later covers that address.
pub proof fn lemma_segment_placed(segs: Seq<SegmentView>, k: int, i: int)
    requires
        0 <= k < segs.len(),
        0 <= i < segs[k].bytes.len(),
        forall|j: int|
            k < j < segs.len() ==> !((#[trigger] segs[j]).paddr <= segs[k].paddr + i
                < segs[j].paddr + segs[j].bytes.len()),
    ensures
        flat_image(segs)[segs[k].paddr + i - link_base(segs)] == segs[k].bytes[i],
{
    lemma_bounds(segs, k);
    lemma_last_cover(segs, k, i);
}

proof fn lemma_last_cover(segs: Seq<SegmentView>, k: int, i: int)
    requires
        0 <= k < segs.len(),
        0 <= i < segs[k].bytes.len(),
        forall|j: int|
            k < j < segs.len() ==> !((#[trigger] segs[j]).paddr <= segs[k].paddr + i
                < segs[j].paddr + segs[j].bytes.len()),
    ensures
        byte_at(segs, segs[k].paddr + i) == segs[k].bytes[i],
    decreases segs.len(),
{
    if k < segs.len() - 1 {
        let init = segs.drop_last();
        assert(segs[segs.len() - 1] == segs.last());
        assert forall|j: int| k < j < init.len() implies !((#[trigger] init[j]).paddr
            <= init[k].paddr + i < init[j].paddr + init[j].bytes.len()) by {
            assert(init[j] == segs[j]);
        }
        lemma_last_cover(init, k, i);
    }
}

/// What no segment covers is zero in the flat image.
pub proof fn lemma_gap_is_zero(segs: Seq<SegmentView>, a: int)
    requires
        link_base(segs) <= a < link_top(segs),
        forall|j: int|
            0 <= j < segs.len() ==> !((#[trigger] segs[j]).paddr <= a < segs[j].paddr
                + segs[j].bytes.len()),
    ensures
        flat_image(segs)[a - link_base(segs)] == 0,
{
    lemma_uncovered(segs, a);
}

proof fn lemma_uncovered(segs: Seq<SegmentView>, a: int)
    requires
        forall|j: int|
            0 <= j < segs.len() ==> !((#[trigger] segs[j]).paddr <= a < segs[j].paddr
                + segs[j].bytes.len()),
    ensures
        byte_at(segs, a) == 0,
    decreases segs.len(),
{
    if segs.len() > 0 {
        let init = segs.drop_last();
        assert(segs[segs.len() - 1] == segs.last());
        assert forall|j: int| 0 <= j < init.len() implies !((#[trigger] init[j]).paddr <= a
            < init[j].paddr + init[j].bytes.len()) by {
            assert(init[j] == segs[j]);
        }
        lemma_uncovered(init, a);
    }
}

/// File offset of program header `k`.
pub open spec fn header_at(d: Seq<u8>, k: int) -> int {
    le::u64_at(d, 32) + k * le::u16_at(d, 54)
}

/// The physical address of program header `k`.
pub open spec fn paddr_of(d: Seq<u8>, k: int) -> int {
    le::u64_at(d, header_at(d, k) + 24) as int
}

/// The number of bytes in the file of program header `k`.
pub open spec fn filesz_of(d: Seq<u8>, k: int) -> int {
    le::u64_at(d, header_at(d, k) + 32) as int
}

/// Whether `k` is a program header of type `PT_LOAD` with bytes in the file.
pub open spec fn loadable(d: Seq<u8>, k: int) -> bool {
    &&& 0 <= k < le::u16_at(d, 56)
    &&& le::u32_at(d, header_at(d, k)) == 1
    &&& filesz_of(d, k) != 0
}

/// Whether program header `k` puts a byte at address `a`.
pub open spec fn loads_at(d: Seq<u8>, k: int, a: int) -> bool {
    loadable(d, k) && paddr_of(d, k) <= a < paddr_of(d, k) + filesz_of(d, k)
}

/// A program header inside the file contributes a segment if and only if it is of
/// type `PT_LOAD` and has bytes in the file, whatever its other fields hold: the
/// bytes at its offset, at its physical address. It is an error if those bytes
/// do not lie in the file or the address runs out.
pub proof fn lemma_header_contributes(d: Seq<u8>, ph: int)
    requires
        0 <= ph,
        ph + 40 <= d.len(),
        d.len() <= usize::MAX,
    ensures
        ({
            let r = header_segment(d, ph);
            let loads = le::u32_at(d, ph) == 1 && le::u64_at(d, ph + 32) != 0;
            let offset = le::u64_at(d, ph + 8) as int;
            let paddr = le::u64_at(d, ph + 24) as int;
            let filesz = le::u64_at(d, ph + 32) as int;
            let fits = offset + filesz <= d.len() && paddr + filesz <= u64::MAX;
            &&& loads && fits ==> {
                &&& r matches Ok(Some(s))
                &&& s.paddr == paddr
                &&& s.bytes.len() == filesz
                &&& forall|j: int| 0 <= j < filesz ==> #[trigger] s.bytes[j] == d[offset + j]
            }
            &&& loads && !fits ==> r is Err
            &&& loads && offset + filesz <= usize::MAX && offset + filesz > d.len() ==> r == Err::<
                Option<SegmentView>,
                ElfError,
            >(ElfError::SegmentPastEnd)
            &&& le::u32_at(d, ph) != 1 ==> r == Ok::<Option<SegmentView>, ElfError>(None)
            &&& !loads && offset <= usize::MAX ==> r == Ok::<Option<SegmentView>, ElfError>(None)
        }),
{
}

proof fn lemma_ahead(s: SegmentView, rest: Seq<SegmentView>, a: int)
    ensures
        link_base(seq![s] + rest) == if s.paddr < link_base(rest) {
            s.paddr
        } else {
            link_base(rest)
        },
        link_top(seq![s] + rest) == if s.paddr + s.bytes.len() > link_top(rest) {
            s.paddr + s.bytes.len()
        } else {
            link_top(rest)
        },
        covered(rest, a) ==> byte_at(seq![s] + rest, a) == byte_at(rest, a),
        !covered(rest, a) ==> byte_at(seq![s] + rest, a) == if s.paddr <= a < s.paddr
            + s.bytes.len() {
            s.bytes[a - s.paddr]
        } else {
            0
        },
        covered(seq![s] + rest, a) <==> covered(rest, a) || s.paddr <= a < s.paddr + s.bytes.len(),
    decreases rest.len(),
{
    let all = seq![s] + rest;
    if rest.len() == 0 {
        assert(all =~= seq![s]);
        assert(all.drop_last() =~= Seq::<SegmentView>::empty());
        assert(all.last() == s);
        assert(link_base(all.drop_last()) == u64::MAX);
        assert(link_top(all.drop_last()) == 0);
        assert(byte_at(all.drop_last(), a) == 0);
    } else {
        let init = rest.drop_last();
        assert(all.drop_last() =~= seq![s] + init);
        assert(all.last() == rest.last());
        lemma_ahead(s, init, a);
        lemma_covered_last(rest, a);
    }
    if s.paddr <= a < s.paddr + s.bytes.len() {
        assert(all[0] == s);
    }
    if covered(rest, a) {
        let j = choose|j: int|
            0 <= j < rest.len() && (#[trigger] rest[j]).paddr <= a < rest[j].paddr
                + rest[j].bytes.len();
        assert(all[j + 1] == rest[j]);
    }
    if covered(all, a) {
        let j = choose|j: int|
            0 <= j < all.len() && (#[trigger] all[j]).paddr <= a < all[j].paddr
                + all[j].bytes.len();
        if j > 0 {
            assert(all[j] == rest[j - 1]);
        } else {
            assert(all[j] == s);
        }
    }
}

/// Whether some segment covers address `a`.
pub open spec fn covered(segs: Seq<SegmentView>, a: int) -> bool {
    exists|j: int|
        0 <= j < segs.len() && (#[trigger] segs[j]).paddr <= a < segs[j].paddr
            + segs[j].bytes.len()
}

proof fn lemma_covered_last(segs: Seq<SegmentView>, a: int)
    requires
        segs.len() > 0,
    ensures
        covered(segs, a) <==> covered(segs.drop_last(), a) || segs.last().paddr <= a
            < segs.last().paddr + segs.last().bytes.len(),
{
    let init = segs.drop_last();
    if covered(init, a) {
        let j = choose|j: int|
            0 <= j < init.len() && (#[trigger] init[j]).paddr <= a < init[j].paddr
                + init[j].bytes.len();
        assert(segs[j] == init[j]);
    }
    if covered(segs, a) {
        let j = choose|j: int|
            0 <= j < segs.len() && (#[trigger] segs[j]).paddr <= a < segs[j].paddr
                + segs[j].bytes.len();
        if j < init.len() {
            assert(init[j] == segs[j]);
        }
    }
    if segs.last().paddr <= a < segs.last().paddr + segs.last().bytes.len() {
        assert(segs[segs.len() - 1] == segs.last());
    }
}

/// The segments of the headers from `i` on, when reading them succeeds.
spec fn from_header(d: Seq<u8>, i: int) -> Result<Seq<SegmentView>, ElfError> {
    segments(
        d,
        le::u64_at(d, 32) as int,
        le::u16_at(d, 54) as int,
        le::u16_at(d, 56) as int,
        i,
    )
}

proof fn lemma_one_header(d: Seq<u8>, k: int)
    requires
        0 <= k < le::u16_at(d, 56),
        header_segment(d, header_at(d, k)) is Ok,
    ensures
        loadable(d, k) <==> header_segment(d, header_at(d, k))->Ok_0 is Some,
        loadable(d, k) ==> {
            let s = header_segment(d, header_at(d, k))->Ok_0->0;
            let offset = le::u64_at(d, header_at(d, k) + 8) as int;
            &&& s.paddr == paddr_of(d, k)
            &&& s.bytes == d.subrange(offset, offset + filesz_of(d, k))
            &&& s.bytes.len() == filesz_of(d, k)
            &&& offset + filesz_of(d, k) <= d.len()
            &&& s.paddr + filesz_of(d, k) <= u64::MAX
        },
{
}

proof fn lemma_bytes_from(d: Seq<u8>, i: int, a: int)
    requires
        0 <= i <= le::u16_at(d, 56),
        from_header(d, i) is Ok,
    ensures
        covered(from_header(d, i)->Ok_0, a) <==> exists|k: int| i <= k && #[trigger] loads_at(d, k, a),
        forall|k: int|
            i <= k && #[trigger] loads_at(d, k, a) && (forall|m: int|
                m > k ==> !(#[trigger] loads_at(d, m, a))) ==> byte_at(from_header(d, i)->Ok_0, a)
                == d[le::u64_at(d, header_at(d, k) + 8) + a - paddr_of(d, k)],
        (forall|k: int| i <= k ==> !(#[trigger] loads_at(d, k, a))) ==> byte_at(
            from_header(d, i)->Ok_0,
            a,
        ) == 0,
    decreases le::u16_at(d, 56) - i,
{
    let n = le::u16_at(d, 56) as int;
    let segs = from_header(d, i)->Ok_0;
    if i < n {
        let rest = from_header(d, i + 1)->Ok_0;
        lemma_bytes_from(d, i + 1, a);
        lemma_one_header(d, i);
        if let Some(s) = header_segment(d, header_at(d, i))->Ok_0 {
            assert(segs == seq![s] + rest);
            lemma_ahead(s, rest, a);
            assert(loads_at(d, i, a) <==> s.paddr <= a < s.paddr + s.bytes.len());
        } else {
            assert(segs == rest);
            assert(!loads_at(d, i, a));
        }
        if covered(rest, a) {
            let k = choose|k: int| i + 1 <= k && #[trigger] loads_at(d, k, a);
            assert(i <= k && loads_at(d, k, a));
        }
        if exists|k: int| i <= k && #[trigger] loads_at(d, k, a) {
            let k = choose|k: int| i <= k && #[trigger] loads_at(d, k, a);
            if k > i {
                assert(i + 1 <= k && loads_at(d, k, a));
            }
        }
        assert forall|k: int|
            i <= k && #[trigger] loads_at(d, k, a) && (forall|m: int|
                m > k ==> !(#[trigger] loads_at(d, m, a))) implies byte_at(segs, a) == d[le::u64_at(
            d,
            header_at(d, k) + 8,
        ) + a - paddr_of(d, k)] by {
            if k > i {
                assert(i + 1 <= k && loads_at(d, k, a));
                assert(covered(rest, a));
            } else {
                assert(!covered(rest, a));
            }
        }
    } else {
        assert(segs =~= Seq::<SegmentView>::empty());
        assert(!covered(segs, a));
        assert forall|k: int| i <= k implies !(#[trigger] loads_at(d, k, a)) by {}
    }
}

proof fn lemma_extent_from(d: Seq<u8>, i: int)
    requires
        0 <= i <= le::u16_at(d, 56),
        from_header(d, i) is Ok,
    ensures
        ({
            let segs = from_header(d, i)->Ok_0;
            &&& forall|k: int|
                i <= k && #[trigger] loadable(d, k) ==> {
                    &&& segs.len() > 0
                    &&& link_base(segs) <= paddr_of(d, k)
                    &&& paddr_of(d, k) + filesz_of(d, k) <= link_top(segs)
                    &&& le::u64_at(d, header_at(d, k) + 8) + filesz_of(d, k) <= d.len()
                }
            &&& segs.len() > 0 ==> exists|k: int|
                i <= k && #[trigger] loadable(d, k) && paddr_of(d, k) == link_base(segs)
            &&& segs.len() > 0 ==> exists|k: int|
                i <= k && #[trigger] loadable(d, k) && paddr_of(d, k) + filesz_of(d, k)
                    == link_top(segs)
        }),
    decreases le::u16_at(d, 56) - i,
{
    let n = le::u16_at(d, 56) as int;
    let segs = from_header(d, i)->Ok_0;
    if i < n {
        let rest = from_header(d, i + 1)->Ok_0;
        lemma_extent_from(d, i + 1);
        lemma_one_header(d, i);
        if let Some(s) = header_segment(d, header_at(d, i))->Ok_0 {
            assert(segs == seq![s] + rest);
            lemma_ahead(s, rest, 0);
            assert(loadable(d, i));
            if rest.len() == 0 {
                assert(link_top(rest) == 0);
                assert(link_base(rest) == u64::MAX);
            }
        } else {
            assert(segs == rest);
        }
    }
}

/// The flat image, told by the file's own bytes. Byte `j` of a `PT_LOAD` header
/// stands at its physical address, unless a later such header puts a byte there
/// too.
pub proof fn lemma_file_bytes_placed(d: Seq<u8>, k: int, j: int)
    requires
        flattened(d) is Ok,
        loadable(d, k),
        0 <= j < filesz_of(d, k),
        forall|m: int| m > k ==> !(#[trigger] loads_at(d, m, paddr_of(d, k) + j)),
    ensures
        ({
            let (base, entry_off, image) = flattened(d)->Ok_0;
            let at = paddr_of(d, k) + j - base;
            &&& 0 <= at < image.len()
            &&& le::u64_at(d, header_at(d, k) + 8) + j < d.len()
            &&& image[at] == d[le::u64_at(d, header_at(d, k) + 8) + j]
        }),
{
    let a = paddr_of(d, k) + j;
    assert(from_header(d, 0) is Ok);
    assert(loads_at(d, k, a));
    lemma_bytes_from(d, 0, a);
    lemma_extent_from(d, 0);
}

/// An address of the flat image at which no `PT_LOAD` header puts a byte is zero.
pub proof fn lemma_file_gap_is_zero(d: Seq<u8>, a: int)
    requires
        flattened(d) is Ok,
        flattened(d)->Ok_0.0 <= a < flattened(d)->Ok_0.0 + flattened(d)->Ok_0.2.len(),
        forall|m: int| !(#[trigger] loads_at(d, m, a)),
    ensures
        flattened(d)->Ok_0.2[a - flattened(d)->Ok_0.0] == 0,
{
    assert(from_header(d, 0) is Ok);
    lemma_bytes_from(d, 0, a);
}

/// The flat image reaches from the lowest address at which a `PT_LOAD` header
/// puts a byte to the highest, both taken, and the entry point is the file's.
pub proof fn lemma_file_extent(d: Seq<u8>)
    requires
        flattened(d) is Ok,
    ensures
        ({
            let (base, entry_off, image) = flattened(d)->Ok_0;
            &&& base + entry_off == le::u64_at(d, 24)
            &&& forall|k: int| #[trigger]
                loadable(d, k) ==> base <= paddr_of(d, k) && paddr_of(d, k) + filesz_of(d, k)
                    <= base + image.len()
            &&& exists|k: int| #[trigger] loadable(d, k) && paddr_of(d, k) == base
            &&& exists|k: int| #[trigger]
                loadable(d, k) && paddr_of(d, k) + filesz_of(d, k) == base + image.len()
        }),
{
    assert(from_header(d, 0) is Ok);
    let segs = from_header(d, 0)->Ok_0;
    assert(segs.len() > 0);
    lemma_extent_from(d, 0);
    lemma_bounds(segs, 0);
}

/// Whether a 64-bit little-endian ELF has its headers, and the bytes they speak
/// of, inside the file.
pub open spec fn intact(d: Seq<u8>) -> bool {
    &&& 58 <= d.len() <= usize::MAX
    &&& d[4] == 2
    &&& d[5] == 1
    &&& le::u64_at(d, 32) <= usize::MAX
    &&& forall|k: int|
        0 <= k < le::u16_at(d, 56) ==> {
            &&& #[trigger] header_at(d, k) + 4 <= d.len()
            &&& le::u32_at(d, header_at(d, k)) == 1 ==> {
                &&& header_at(d, k) + 40 <= d.len()
                &&& le::u64_at(d, header_at(d, k) + 8) <= usize::MAX
            }
            &&& loadable(d, k) ==> {
                &&& le::u64_at(d, header_at(d, k) + 8) + filesz_of(d, k) <= d.len()
                &&& paddr_of(d, k) + filesz_of(d, k) <= u64::MAX
            }
        }
}

proof fn lemma_all_read(d: Seq<u8>, i: int)
    requires
        intact(d),
        0 <= i <= le::u16_at(d, 56),
    ensures
        from_header(d, i) is Ok,
    decreases le::u16_at(d, 56) - i,
{
    if i < le::u16_at(d, 56) {
        assert(header_at(d, i) + 4 <= d.len());
        assert(i * le::u16_at(d, 54) >= 0) by (nonlinear_arith)
            requires
                i >= 0,
        ;
        assert(header_segment(d, header_at(d, i)) is Ok);
        lemma_all_read(d, i + 1);
    }
}

/// An intact file is flattened if it has something to load, from header `lo`,
/// the lowest, to header `hi`, the highest, in a span that the machine can hold,
/// and the entry point lies at most 4 GiB above the lowest address.
pub proof fn lemma_intact_flattens(d: Seq<u8>, lo: int, hi: int)
    requires
        intact(d),
        loadable(d, lo),
        loadable(d, hi),
        forall|k: int| #[trigger]
            loadable(d, k) ==> paddr_of(d, lo) <= paddr_of(d, k) && paddr_of(d, k) + filesz_of(d, k)
                <= paddr_of(d, hi) + filesz_of(d, hi),
    ensures
        ({
            let entry = le::u64_at(d, 24);
            let size = paddr_of(d, hi) + filesz_of(d, hi) - paddr_of(d, lo);
            &&& flattened(d) is Ok <==> size <= isize::MAX && 0 <= entry - paddr_of(d, lo)
                <= u32::MAX
            &&& size <= isize::MAX && entry - paddr_of(d, lo) > u32::MAX ==> flattened(d) == Err::<
                (u64, u32, Seq<u8>),
                ElfError,
            >(ElfError::EntryOutOfRange)
            &&& size <= isize::MAX && entry < paddr_of(d, lo) ==> flattened(d) == Err::<
                (u64, u32, Seq<u8>),
                ElfError,
            >(ElfError::Overflow)
            &&& isize::MAX < size <= usize::MAX ==> flattened(d) == Err::<
                (u64, u32, Seq<u8>),
                ElfError,
            >(ElfError::Overflow)
            &&& size > usize::MAX ==> flattened(d) == Err::<(u64, u32, Seq<u8>), ElfError>(
                ElfError::TooLarge,
            )
            &&& flattened(d) matches Ok((base, entry_off, image)) ==> {
                &&& base == paddr_of(d, lo)
                &&& image.len() == size
                &&& entry_off == entry - base
            }
        }),
{
    lemma_all_read(d, 0);
    lemma_extent_from(d, 0);
    let segs = from_header(d, 0)->Ok_0;
    assert(segs.len() > 0);
    lemma_bounds(segs, 0);
    let l = choose|k: int| 0 <= k && #[trigger] loadable(d, k) && paddr_of(d, k) == link_base(segs);
    let h = choose|k: int|
        0 <= k && #[trigger] loadable(d, k) && paddr_of(d, k) + filesz_of(d, k) == link_top(segs);
    assert(loadable(d, l) && loadable(d, h));
}

/// An intact file with nothing to load has no image.
pub proof fn lemma_nothing_to_load(d: Seq<u8>)
    requires
        intact(d),
        forall|k: int| !(#[trigger] loadable(d, k)),
    ensures
        flattened(d) == Err::<(u64, u32, Seq<u8>), ElfError>(ElfError::NoData),
{
    lemma_all_read(d, 0);
    lemma_extent_from(d, 0);
}

/// Only 64-bit little-endian files are read, and of a file that is flattened
/// every loadable header's bytes lie in it.
pub proof fn lemma_refused_files(d: Seq<u8>)
    ensures
        d.len() < 6 || d[4] != 2 || d[5] != 1 ==> flattened(d) == Err::<
            (u64, u32, Seq<u8>),
            ElfError,
        >(ElfError::Unsupported),
        d.len() >= 6 && d[4] == 2 && d[5] == 1 && d.len() < 58 ==> flattened(d) is Err,
        flattened(d) is Ok ==> forall|k: int| #[trigger]
            loadable(d, k) ==> le::u64_at(d, header_at(d, k) + 8) + filesz_of(d, k) <= d.len(),
{
    if flattened(d) is Ok {
        assert(from_header(d, 0) is Ok);
        lemma_extent_from(d, 0);
    }
}

/// A file is an ELF if and only if its first four bytes are `0x7F`, `E`, `L`, `F`,
/// whatever follows.
pub proof fn lemma_magic(d: Seq<u8>)
    ensures
        has_elf_magic(d) <==> d.len() >= 4 && d[0] == 0x7F && d[1] == 0x45 && d[2] == 0x4C && d[3]
            == 0x46,
{
    let magic = seq![0x7Fu8, 0x45, 0x4C, 0x46];
    if d.len() >= 4 {
        let head = d.take(4);
        assert(head[0] == d[0] && head[1] == d[1] && head[2] == d[2] && head[3] == d[3]);
        if d[0] == 0x7F && d[1] == 0x45 && d[2] == 0x4C && d[3] == 0x46 {
            assert(head =~= magic);
        }
        assert(magic[0] == 0x7F && magic[1] == 0x45 && magic[2] == 0x4C && magic[3] == 0x46);
    }
}

/// What is wrong with a program header that contributes nothing but an error: a
/// field or the segment lies past the end of the file, or a sum overflows.
pub proof fn lemma_header_faults(d: Seq<u8>, ph: int)
    requires
        0 <= ph,
        ph + 40 <= usize::MAX,
        d.len() <= usize::MAX,
    ensures
        ({
            let truncated = Err::<Option<SegmentView>, ElfError>(ElfError::Truncated);
            let overflow = Err::<Option<SegmentView>, ElfError>(ElfError::Overflow);
            let past = Err::<Option<SegmentView>, ElfError>(ElfError::SegmentPastEnd);
            let r = header_segment(d, ph);
            let load = le::u32_at(d, ph) == 1;
            let offset = le::u64_at(d, ph + 8) as int;
            let paddr = le::u64_at(d, ph + 24) as int;
            let filesz = le::u64_at(d, ph + 32) as int;
            let whole = ph + 40 <= d.len() && load && filesz != 0 && offset <= usize::MAX && filesz
                <= usize::MAX;
            &&& ph + 4 <= d.len() && !load ==> r == Ok::<Option<SegmentView>, ElfError>(None)
            &&& d.len() < ph + 4 ==> r == truncated
            &&& ph + 4 <= d.len() < ph + 16 && load ==> r == truncated
            &&& ph + 16 <= d.len() < ph + 40 && load && offset <= usize::MAX ==> r == truncated
            &&& whole && offset + filesz > usize::MAX ==> r == overflow
            &&& whole && d.len() < offset + filesz <= usize::MAX ==> r == past
            &&& whole && offset + filesz <= d.len() && paddr + filesz > u64::MAX ==> r == overflow
        }),
{
}

/// The first program header that is at fault decides the error, and a file too
/// short for its own header is truncated.
pub proof fn lemma_first_fault(d: Seq<u8>, k: int)
    requires
        6 <= d.len() <= usize::MAX,
        d[4] == 2,
        d[5] == 1,
    ensures
        d.len() < 40 ==> flattened(d) == Err::<(u64, u32, Seq<u8>), ElfError>(ElfError::Truncated),
        40 <= d.len() < 58 && le::u64_at(d, 32) <= usize::MAX ==> flattened(d) == Err::<
            (u64, u32, Seq<u8>),
            ElfError,
        >(ElfError::Truncated),
        d.len() >= 58 && le::u64_at(d, 32) <= usize::MAX && 0 <= k < le::u16_at(d, 56) && (forall|
            i: int,
        |
            0 <= i < k ==> header_segment(d, #[trigger] header_at(d, i)) is Ok) && header_segment(
            d,
            header_at(d, k),
        ) is Err ==> {
            &&& flattened(d) is Err
            &&& flattened(d)->Err_0 == header_segment(d, header_at(d, k))->Err_0
        },
{
    if d.len() >= 58 && 0 <= k < le::u16_at(d, 56) && header_segment(d, header_at(d, k)) is Err && (
    forall|i: int| 0 <= i < k ==> header_segment(d, #[trigger] header_at(d, i)) is Ok) {
        lemma_fault_from(d, 0, k);
    }
}

proof fn lemma_fault_from(d: Seq<u8>, i: int, k: int)
    requires
        0 <= i <= k < le::u16_at(d, 56),
        forall|j: int| 0 <= j < k ==> header_segment(d, #[trigger] header_at(d, j)) is Ok,
        header_segment(d, header_at(d, k)) is Err,
    ensures
        from_header(d, i) is Err,
        from_header(d, i)->Err_0 == header_segment(d, header_at(d, k))->Err_0,
    decreases k - i,
{
    if i < k {
        assert(header_segment(d, header_at(d, i)) is Ok);
        lemma_fault_from(d, i + 1, k);
    }
}

/// Each error in words.
pub proof fn lemma_error_texts()
    ensures
        ElfError::Unsupported.text() == "only 64-bit little-endian ELF images are supported"@,
        ElfError::Truncated.text() == "truncated ELF"@,
        ElfError::BadPhoff.text() == "bad e_phoff"@,
        ElfError::BadOffset.text() == "bad p_offset"@,
        ElfError::BadFilesz.text() == "bad p_filesz"@,
        ElfError::SegmentPastEnd.text() == "ELF segment extends past end of file"@,
        ElfError::NoData.text() == "ELF has no loadable data"@,
        ElfError::TooLarge.text() == "image too large"@,
        ElfError::EntryOutOfRange.text() == "entry offset out of range"@,
{
}

} // verus!
