//! Which cache lines to clean before an image runs.
//!
//! The bytes just written must be visible to instruction fetch, so the data
//! cache is cleaned line by line over the image.

use vstd::prelude::*;

verus! {

/// The size of a data-cache line, from `CTR_EL0`: `DminLine` (bits [19:16]) is
/// log2 of the line size in words.
pub open spec fn line_of(ctr: u64) -> u64 {
    4u64 << ((ctr >> 16) & 0xf)
}

/// The start of the line that holds address `a`.
pub open spec fn line_start(a: u64, line: u64) -> u64 {
    a & !((line - 1) as u64)
}

/// A line has at least one word, and an address lies in its line.
pub proof fn lemma_line(ctr: u64, a: u64)
    ensures
        (ctr >> 16) & 0xf <= 15,
        4 <= line_of(ctr) <= 0x2_0000,
        line_start(a, line_of(ctr)) <= a < line_start(a, line_of(ctr)) + line_of(ctr),
{
    let shift: u64 = (ctr >> 16) & 0xf;
    assert(shift <= 15) by (bit_vector)
        requires
            shift == (ctr >> 16) & 0xf,
    ;
    assert(4 <= (4u64 << shift) <= 0x2_0000) by (bit_vector)
        requires
            shift <= 15,
    ;
    let mask: u64 = (line_of(ctr) - 1) as u64;
    assert((a & !mask) <= a && a - (a & !mask) <= mask) by (bit_vector);
}

/// A walk over the cache lines that a range of addresses touches.
pub struct Sweep {
    addr: u64,
    line: u64,
    end: u64,
}

impl Sweep {
    /// Address of the next line.
    pub closed spec fn addr(&self) -> u64 {
        self.addr
    }

    /// Size of a line.
    pub closed spec fn line(&self) -> u64 {
        self.line
    }

    /// First address behind the range.
    pub closed spec fn end(&self) -> u64 {
        self.end
    }

    /// A line is not empty.
    pub closed spec fn wf(&self) -> bool {
        self.line > 0
    }

    /// The lines still to come.
    pub open spec fn rest(&self) -> Seq<int> {
        lines_from(self.addr() as int, self.line() as int, self.end() as int)
    }

    /// Starts at the line that holds `start`.
    pub fn new(ctr: u64, start: u64, end: u64) -> (s: Self)
        ensures
            s.wf(),
            s.line() == line_of(ctr),
            s.end() == end,
            s.addr() == line_start(start, line_of(ctr)),
    {
        proof {
            lemma_line(ctr, start);
        }
        let line: u64 = 4u64 << ((ctr >> 16) & 0xf);
        Sweep { addr: start & !(line - 1), line, end }
    }

    /// The next line to clean, or `None` behind the range. The walk also ends
    /// where addresses do.
    pub fn next(&mut self) -> (r: Option<u64>)
        requires
            old(self).wf(),
        ensures
            final(self).wf(),
            final(self).line() == old(self).line(),
            final(self).end() == old(self).end(),
            old(self).rest() == match r {
                Some(addr) => seq![addr as int] + final(self).rest(),
                None => Seq::empty(),
            },
            r is None ==> final(self).rest() == Seq::<int>::empty(),
    {
        if self.addr < self.end {
            let addr: u64 = self.addr;
            self.addr = match addr.checked_add(self.line) {
                Some(next) => next,
                None => self.end,
            };
            assert(lines_from(addr + self.line, self.line as int, self.end as int)
                == self.rest());
            Some(addr)
        } else {
            None
        }
    }
}

/// The lines of a walk from `addr`, `line` apart, up to `end`.
pub open spec fn lines_from(addr: int, line: int, end: int) -> Seq<int>
    decreases
            if addr < end {
                end - addr
            } else {
                0
            },
{
    if line <= 0 || addr >= end {
        Seq::empty()
    } else {
        seq![addr] + lines_from(addr + line, line, end)
    }
}

/// Every address of the range lies in one of the lines of the walk.
proof fn lemma_sweep_covers(addr: int, line: int, end: int, a: int)
    requires
        0 < line,
        addr <= a < end,
    ensures
        exists|i: int|
            0 <= i < lines_from(addr, line, end).len() && #[trigger] lines_from(
                addr,
                line,
                end,
            )[i] <= a < lines_from(addr, line, end)[i] + line,
    decreases end - addr,
{
    let all = lines_from(addr, line, end);
    let rest = lines_from(addr + line, line, end);
    if a < addr + line {
        assert(all[0] <= a < all[0] + line);
    } else {
        lemma_sweep_covers(addr + line, line, end, a);
        let i = choose|i: int| 0 <= i < rest.len() && #[trigger] rest[i] <= a < rest[i] + line;
        assert(all[i + 1] == rest[i]);
    }
}

/// Every address of an image is cleaned: it lies in one of the lines that a walk
/// over the image gives.
pub proof fn lemma_image_cleaned(ctr: u64, start: u64, end: u64, a: int)
    requires
        start <= a < end,
    ensures
        ({
            let line = line_of(ctr) as int;
            let lines = lines_from(line_start(start, line_of(ctr)) as int, line, end as int);
            exists|i: int| 0 <= i < lines.len() && #[trigger] lines[i] <= a < lines[i] + line
        }),
{
    lemma_line(ctr, start);
    lemma_sweep_covers(
        line_start(start, line_of(ctr)) as int,
        line_of(ctr) as int,
        end as int,
        a,
    );
}

/// The size of a line doubles with each step of `DminLine`, from four bytes.
pub proof fn lemma_line_sizes(ctr: u64)
    ensures
        (ctr >> 16) & 0xf == 0 ==> line_of(ctr) == 4,
        (ctr >> 16) & 0xf < 15 ==> line_of((ctr + 0x1_0000) as u64) == 2 * line_of(ctr),
        line_start(ctr, line_of(ctr)) & ((line_of(ctr) - 1) as u64) == 0,
{
    let k: u64 = (ctr >> 16) & 0xf;
    if k == 0 {
        assert(4u64 << 0 == 4) by (bit_vector);
    }
    if k < 15 {
        assert(ctr <= 0xFFFF_FFFF_FFFE_FFFF && (((ctr + 0x1_0000) as u64) >> 16) & 0xf == k + 1
            && 4u64 << ((k + 1) as u64) == 2 * (4u64 << k)) by (bit_vector)
            requires
                k == (ctr >> 16) & 0xf,
                k < 15,
        ;
    }
    let mask: u64 = (line_of(ctr) - 1) as u64;
    assert((ctr & !mask) & mask == 0) by (bit_vector);
}

/// The walk goes from its start in steps of one line, and stays below the end: no
/// line that it gives lies wholly outside.
pub proof fn lemma_walk_steps(addr: int, line: int, end: int, i: int)
    requires
        0 < line,
        0 <= i < lines_from(addr, line, end).len(),
    ensures
        lines_from(addr, line, end)[i] == addr + i * line,
        addr + i * line < end,
        end <= addr + lines_from(addr, line, end).len() * line,
    decreases end - addr,
{
    let rest = lines_from(addr + line, line, end);
    let all = lines_from(addr, line, end);
    assert(all == seq![addr] + rest);
    let n = rest.len() as int;
    assert((n + 1) * line == n * line + line) by (nonlinear_arith);
    if n > 0 {
        let j = if i > 0 {
            i - 1
        } else {
            0
        };
        lemma_walk_steps(addr + line, line, end, j);
        assert(all[j + 1] == rest[j]);
        assert((j + 1) * line == j * line + line) by (nonlinear_arith);
        assert(0 * line == 0) by (nonlinear_arith);
    } else {
        assert(i == 0);
        assert(0 * line == 0) by (nonlinear_arith);
    }
}

} // verus!
