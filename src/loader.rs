use vstd::prelude::*;

verus! {

/// Program header type of a loadable segment.
pub const PT_LOAD: u32 = 1;

/// Size of one firmware page.
pub const PAGE_SIZE: u64 = 0x1000;

/// A program header as the loader reads it:
/// (p_type, p_offset, p_vaddr, p_filesz, p_memsz).
pub type Segment = (u32, u64, u64, u64, u64);

/// The entry point and the program headers, in table order, of an ELF file,
/// or `None` when the file does not parse or has no program header table.
pub uninterp spec fn elf_image_of(b: Seq<u8>) -> Option<(u64, Seq<Segment>)>;

/// Relies on elf's `ElfBytes::minimal_parse`, `ElfBytes::segments` and the
/// segment table's iterator: the file header's entry point and the program
/// headers depend on the file's bytes alone.
#[verifier::external_body]
fn parse_image(kernel: &[u8]) -> (r: Option<(u64, Vec<Segment>)>)
    ensures
        match r {
            Some(v) => elf_image_of(kernel@) == Some((v.0, v.1@)),
            None => elf_image_of(kernel@) is None,
        },
{
    let file = elf::ElfBytes::<elf::endian::AnyEndian>::minimal_parse(kernel).ok()?;
    let table = file.segments()?;
    Some((
        file.ehdr.e_entry,
        table.iter().map(|p| (p.p_type, p.p_offset, p.p_vaddr, p.p_filesz, p.p_memsz)).collect(),
    ))
}

#[derive(Clone, Copy, PartialEq, Eq, Debug, Structural)]
pub enum LoadError {
    /// The file is not an ELF image with a program header table.
    Malformed,
    /// No segment is loadable.
    NoLoadSegment,
    /// A loadable segment ends past the end of the address space.
    AddressOverflow,
    /// A loadable segment holds more file bytes than memory bytes.
    FileSizeExceedsMemSize,
    /// A loadable segment's file bytes lie past the end of the file.
    SegmentOutsideFile,
    /// The destination region does not cover the load range.
    RegionTooSmall,
}

pub open spec fn is_load(s: Segment) -> bool {
    s.0 == PT_LOAD
}

/// A loadable segment is well formed: it ends within the address space and
/// its file part fits in its memory part.
pub open spec fn segment_ok(s: Segment) -> bool {
    is_load(s) ==> s.2 + s.4 <= u64::MAX && s.3 <= s.4
}

/// Whether some segment is loadable.
pub open spec fn has_load(segs: Seq<Segment>) -> bool {
    exists|i: int| 0 <= i < segs.len() && is_load(segs[i])
}

/// The lowest start address of the loadable segments (u64::MAX if none).
pub open spec fn first_addr(segs: Seq<Segment>) -> int
    decreases segs.len(),
{
    if segs.len() == 0 {
        u64::MAX as int
    } else {
        let rest = first_addr(segs.drop_last());
        let s = segs.last();
        if is_load(s) && (s.2 as int) < rest {
            s.2 as int
        } else {
            rest
        }
    }
}

/// The highest end address of the loadable segments (0 if none).
pub open spec fn last_addr(segs: Seq<Segment>) -> int
    decreases segs.len(),
{
    if segs.len() == 0 {
        0
    } else {
        let rest = last_addr(segs.drop_last());
        let s = segs.last();
        if is_load(s) && s.2 + s.4 > rest {
            s.2 + s.4
        } else {
            rest
        }
    }
}

/// Pages needed to cover `len` bytes.
pub open spec fn pages_for(len: int) -> int {
    (len + PAGE_SIZE - 1) / PAGE_SIZE as int
}

/// Where a kernel image goes: its entry point, the address range its
/// loadable segments span, the pages to reserve from `first`, and its
/// program headers.
pub struct LoadPlan {
    pub entry: u64,
    pub first: u64,
    pub last: u64,
    pub pages: u64,
    pub segments: Vec<Segment>,
}

impl LoadPlan {
    /// Every loadable segment is well formed and lies within `first..last`.
    pub open spec fn wf(&self) -> bool {
        forall|i: int|
            0 <= i < self.segments@.len() ==> segment_ok(#[trigger] self.segments@[i]) && (is_load(
                self.segments@[i],
            ) ==> self.first <= self.segments@[i].2 && self.segments@[i].2 + self.segments@[i].4
                <= self.last)
    }
}

/// The plan for an image with entry point `entry` and program headers `segs`.
pub open spec fn plan_spec(entry: u64, segs: Seq<Segment>) -> Result<(u64, u64, u64, u64), LoadError> {
    if !has_load(segs) {
        Err(LoadError::NoLoadSegment)
    } else if exists|i: int| 0 <= i < segs.len() && is_load(segs[i]) && segs[i].2 + segs[i].4 > u64::MAX {
        Err(LoadError::AddressOverflow)
    } else if exists|i: int| 0 <= i < segs.len() && is_load(segs[i]) && segs[i].3 > segs[i].4 {
        Err(LoadError::FileSizeExceedsMemSize)
    } else {
        Ok((entry, first_addr(segs) as u64, last_addr(segs) as u64, pages_for(last_addr(segs) - first_addr(segs)) as u64))
    }
}

proof fn lemma_range_step(segs: Seq<Segment>, i: int)
    requires
        0 <= i < segs.len(),
    ensures
        first_addr(segs.take(i + 1)) == if is_load(segs[i]) && (segs[i].2 as int) < first_addr(segs.take(i)) {
            segs[i].2 as int
        } else {
            first_addr(segs.take(i))
        },
        last_addr(segs.take(i + 1)) == if is_load(segs[i]) && segs[i].2 + segs[i].4 > last_addr(segs.take(i)) {
            segs[i].2 + segs[i].4
        } else {
            last_addr(segs.take(i))
        },
{
    assert(segs.take(i + 1).drop_last() =~= segs.take(i));
}

proof fn lemma_range_bounds(segs: Seq<Segment>)
    requires
        forall|i: int| 0 <= i < segs.len() ==> segment_ok(#[trigger] segs[i]),
    ensures
        0 <= first_addr(segs) <= u64::MAX,
        0 <= last_addr(segs) <= u64::MAX,
        has_load(segs) ==> first_addr(segs) <= last_addr(segs),
        forall|i: int| 0 <= i < segs.len() && is_load(#[trigger] segs[i]) ==> first_addr(segs) <= segs[i].2 && segs[i].2 + segs[i].4 <= last_addr(segs),
    decreases segs.len(),
{
    if segs.len() > 0 {
        let rest = segs.drop_last();
        assert forall|i: int| 0 <= i < rest.len() implies segment_ok(#[trigger] rest[i]) by {
            assert(rest[i] == segs[i]);
        }
        lemma_range_bounds(rest);
        assert forall|i: int| 0 <= i < segs.len() && is_load(#[trigger] segs[i]) implies first_addr(segs) <= segs[i].2 && segs[i].2 + segs[i].4 <= last_addr(segs) by {
            if i < segs.len() - 1 {
                assert(rest[i] == segs[i]);
            }
        }
        if has_load(segs) {
            let k = choose|k: int| 0 <= k < segs.len() && is_load(segs[k]);
            assert(segment_ok(segs[k]));
        }
    }
}

/// Computes where the image with entry point `entry` and program headers
/// `segments` is to be loaded: the lowest start and highest end address of
/// its loadable segments, and the pages that cover them.
pub fn plan_load(entry: u64, segments: Vec<Segment>) -> (r: Result<LoadPlan, LoadError>)
    ensures
        match (r, plan_spec(entry, segments@)) {
            (Ok(p), Ok(q)) => p.entry == q.0 && p.first == q.1 && p.last == q.2 && p.pages == q.3 && p.segments@ == segments@ && p.wf() && p.first <= p.last,
            (Err(e), Err(f)) => e == f,
            _ => false,
        },
{
    let n = segments.len();
    let mut found = false;
    let mut i: usize = 0;
    while i < n
        invariant
            i <= n,
            n == segments@.len(),
            found == exists|k: int| 0 <= k < i && is_load(segments@[k]),
        decreases n - i,
    {
        if segments[i].0 == PT_LOAD {
            found = true;
        }
        i = i + 1;
    }
    if !found {
        return Err(LoadError::NoLoadSegment);
    }
    let mut i: usize = 0;
    while i < n
        invariant
            i <= n,
            n == segments@.len(),
            forall|k: int| 0 <= k < i && is_load(#[trigger] segments@[k]) ==> segments@[k].2 + segments@[k].4 <= u64::MAX,
        decreases n - i,
    {
        let s = segments[i];
        if s.0 == PT_LOAD && s.2 > u64::MAX - s.4 {
            return Err(LoadError::AddressOverflow);
        }
        i = i + 1;
    }
    let mut i: usize = 0;
    while i < n
        invariant
            i <= n,
            n == segments@.len(),
            forall|k: int| 0 <= k < n && is_load(#[trigger] segments@[k]) ==> segments@[k].2 + segments@[k].4 <= u64::MAX,
            forall|k: int| 0 <= k < i && is_load(#[trigger] segments@[k]) ==> segments@[k].3 <= segments@[k].4,
        decreases n - i,
    {
        let s = segments[i];
        if s.0 == PT_LOAD && s.3 > s.4 {
            return Err(LoadError::FileSizeExceedsMemSize);
        }
        i = i + 1;
    }
    let mut first: u64 = u64::MAX;
    let mut last: u64 = 0;
    let mut i: usize = 0;
    assert(segments@.take(0) =~= Seq::<Segment>::empty());
    while i < n
        invariant
            i <= n,
            n == segments@.len(),
            forall|k: int| 0 <= k < n ==> segment_ok(#[trigger] segments@[k]),
            first == first_addr(segments@.take(i as int)),
            last == last_addr(segments@.take(i as int)),
        decreases n - i,
    {
        let s = segments[i];
        proof {
            lemma_range_step(segments@, i as int);
            assert(segment_ok(segments@[i as int]));
        }
        if s.0 == PT_LOAD {
            if s.2 < first {
                first = s.2;
            }
            if s.2 + s.4 > last {
                last = s.2 + s.4;
            }
        }
        i = i + 1;
    }
    assert(segments@.take(n as int) =~= segments@);
    proof {
        lemma_range_bounds(segments@);
    }
    let span = last - first;
    let pages = span / PAGE_SIZE + if span % PAGE_SIZE == 0 { 0 } else { 1 };
    assert(pages == pages_for(span as int)) by (nonlinear_arith)
        requires pages == span / 0x1000 + if span % 0x1000 == 0 { 0int } else { 1int }, span >= 0;
    Ok(LoadPlan { entry, first, last, pages, segments })
}

/// Parses the kernel image and plans where it is to be loaded.
pub fn prepare_load(kernel: &[u8]) -> (r: Result<LoadPlan, LoadError>)
    ensures
        match elf_image_of(kernel@) {
            None => r == Err::<LoadPlan, LoadError>(LoadError::Malformed),
            Some(img) => match (r, plan_spec(img.0, img.1)) {
                (Ok(p), Ok(q)) => p.entry == q.0 && p.first == q.1 && p.last == q.2 && p.pages == q.3 && p.segments@ == img.1 && p.wf() && p.first <= p.last,
                (Err(e), Err(f)) => e == f,
                _ => false,
            },
        },
{
    match parse_image(kernel) {
        None => Err(LoadError::Malformed),
        Some((entry, segments)) => plan_load(entry, segments),
    }
}

/// Region `d`, which starts at address `first`, after segment `s` is
/// placed: its file bytes copied from `file`, the rest of its memory zeroed.
pub open spec fn segment_placed(d: Seq<u8>, file: Seq<u8>, s: Segment, first: int) -> Seq<u8> {
    Seq::new(
        d.len(),
        |i: int|
            {
                let a = i + first - s.2;
                if 0 <= a < s.3 {
                    file[s.1 + a]
                } else if s.3 <= a < s.4 {
                    0u8
                } else {
                    d[i]
                }
            },
    )
}

/// Region `d` after every loadable segment of `segs` is placed, in order.
pub open spec fn placed_all(d: Seq<u8>, file: Seq<u8>, segs: Seq<Segment>, first: int) -> Seq<u8>
    decreases segs.len(),
{
    if segs.len() == 0 {
        d
    } else {
        let d1 = placed_all(d, file, segs.drop_last(), first);
        if is_load(segs.last()) {
            segment_placed(d1, file, segs.last(), first)
        } else {
            d1
        }
    }
}

/// Whether the file bytes of a loadable segment lie within a file of `len` bytes.
pub open spec fn in_file(s: Segment, len: int) -> bool {
    is_load(s) ==> s.1 + s.3 <= len
}

/// Places the loadable segments of `plan` into `dest`, the reserved region
/// that starts at `plan.first`: each segment's file bytes are copied from
/// `kernel` and the rest of its memory is zeroed. Nothing is written when a
/// segment's file bytes lie outside `kernel` or `dest` is too small.
pub fn load_segments(plan: &LoadPlan, kernel: &[u8], dest: &mut [u8]) -> (r: Result<(), LoadError>)
    requires
        plan.wf(),
        plan.first <= plan.last,
    ensures
        (old(dest)@.len() < plan.last - plan.first) ==> r == Err::<(), LoadError>(LoadError::RegionTooSmall) && final(dest)@ == old(dest)@,
        (old(dest)@.len() >= plan.last - plan.first && exists|i: int| 0 <= i < plan.segments@.len() && !in_file(#[trigger] plan.segments@[i], kernel@.len() as int))
            ==> r == Err::<(), LoadError>(LoadError::SegmentOutsideFile) && final(dest)@ == old(dest)@,
        (old(dest)@.len() >= plan.last - plan.first && forall|i: int| 0 <= i < plan.segments@.len() ==> in_file(#[trigger] plan.segments@[i], kernel@.len() as int))
            ==> r is Ok && final(dest)@ == placed_all(old(dest)@, kernel@, plan.segments@, plan.first as int),
{
    let span = plan.last - plan.first;
    if (dest.len() as u64) < span {
        return Err(LoadError::RegionTooSmall);
    }
    let n = plan.segments.len();
    let klen = kernel.len();
    let mut i: usize = 0;
    while i < n
        invariant
            i <= n,
            n == plan.segments@.len(),
            klen == kernel@.len(),
            dest@.len() >= plan.last - plan.first,
            forall|k: int| 0 <= k < i ==> in_file(#[trigger] plan.segments@[k], kernel@.len() as int),
        decreases n - i,
    {
        let s = plan.segments[i];
        if s.0 == PT_LOAD && (s.1 > klen as u64 || s.3 > klen as u64 - s.1) {
            return Err(LoadError::SegmentOutsideFile);
        }
        i = i + 1;
    }
    let ghost d0 = dest@;
    let dlen = dest.len();
    let mut i: usize = 0;
    assert(plan.segments@.take(0) =~= Seq::<Segment>::empty());
    while i < n
        invariant
            i <= n,
            n == plan.segments@.len(),
            plan.wf(),
            klen == kernel@.len(),
            dlen == dest@.len(),
            dlen >= plan.last - plan.first,
            forall|k: int| 0 <= k < n ==> in_file(#[trigger] plan.segments@[k], kernel@.len() as int),
            dest@ == placed_all(d0, kernel@, plan.segments@.take(i as int), plan.first as int),
        decreases n - i,
    {
        let s = plan.segments[i];
        let ghost d1 = dest@;
        proof {
            assert(plan.segments@.take(i + 1).drop_last() =~= plan.segments@.take(i as int));
            assert(plan.segments@.take(i + 1).last() == s);
            assert(segment_ok(plan.segments@[i as int]));
            assert(in_file(plan.segments@[i as int], kernel@.len() as int));
        }
        if s.0 == PT_LOAD {
            let base = (s.2 - plan.first) as usize;
            let memsz = s.4 as usize;
            let filesz = s.3 as usize;
            let off = s.1 as usize;
            let mut j: usize = 0;
            while j < memsz
                invariant
                    j <= memsz,
                    memsz == s.4,
                    filesz == s.3,
                    off == s.1,
                    filesz <= memsz,
                    base == s.2 - plan.first,
                    base + memsz <= dlen,
                    off + filesz <= klen,
                    klen == kernel@.len(),
                    dlen == dest@.len(),
                    dest@ == Seq::new(d1.len(), |k: int| {
                        let a = k - base;
                        if 0 <= a < j {
                            if a < filesz { kernel@[off + a] } else { 0u8 }
                        } else {
                            d1[k]
                        }
                    }),
                decreases memsz - j,
            {
                if j < filesz {
                    dest[base + j] = kernel[off + j];
                } else {
                    dest[base + j] = 0;
                }
                j = j + 1;
                proof {
                    assert(dest@ =~= Seq::new(d1.len(), |k: int| {
                        let a = k - base;
                        if 0 <= a < j {
                            if a < filesz { kernel@[off + a] } else { 0u8 }
                        } else {
                            d1[k]
                        }
                    }));
                }
            }
            assert(dest@ =~= segment_placed(d1, kernel@, s, plan.first as int));
        }
        i = i + 1;
    }
    assert(plan.segments@.take(n as int) =~= plan.segments@);
    Ok(())
}

} // verus!
