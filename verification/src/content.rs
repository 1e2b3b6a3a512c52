//! Writing data patterns to memory and checking memory against them.
use vstd::prelude::*;
use crate::consec_blocks::{ConsecBlocks, locate, total_len};
use crate::constants::{PAGE_MASK, PAGE_SIZE};
use crate::memblock::Memory;
use crate::pattern::{BitFlip, DataPattern, PatternView};

verus! {

/// Memory that is addressed by byte offsets.
pub trait BytePointer {
    /// What the memory needs to hold of itself.
    spec fn wf(&self) -> bool;

    /// The length of the memory in bytes.
    spec fn spec_len(&self) -> usize;

    /// The address of the byte at `offset`.
    spec fn spec_addr(&self, offset: usize) -> usize;

    /// Returns the address of the byte at the given offset.
    fn addr(&self, offset: usize) -> (r: usize)
        requires
            self.wf(),
            offset < self.spec_len(),
        ensures
            r == self.spec_addr(offset),
    ;

    /// Returns the address of the first byte.
    fn ptr(&self) -> (r: usize)
        requires
            self.wf(),
            self.spec_len() > 0,
        ensures
            r == self.spec_addr(0),
    ;

    /// Returns the total length of the memory in bytes.
    fn len(&self) -> (r: usize)
        requires
            self.wf(),
        ensures
            r == self.spec_len(),
    ;
}

/// Memory whose pages can be written and read back.
///
/// `byte_at` is what the memory holds. A write changes the page it is given
/// and nothing else; what changes the memory from outside, changes the value.
pub trait VictimMemory: BytePointer {
    /// The byte that the memory holds at `offset`.
    spec fn byte_at(&self, offset: usize) -> u8;


    /// Reads the page at `offset`, past the caches.
    fn read_page(&self, offset: usize) -> (r: [u8; PAGE_SIZE])
        requires
            self.wf(),
            offset + PAGE_SIZE <= self.spec_len(),
        ensures
            forall|i: int| 0 <= i < PAGE_SIZE ==> #[trigger] r@[i] == self.byte_at((offset + i) as usize),
    ;

    /// Writes the page at `offset` with a write that cannot be elided.
    fn write_page(&mut self, offset: usize, page: &[u8; PAGE_SIZE])
        requires
            old(self).wf(),
            offset + PAGE_SIZE <= old(self).spec_len(),
        ensures
            final(self).wf(),
            final(self).spec_len() == old(self).spec_len(),
            forall|o: usize| final(self).spec_addr(o) == old(self).spec_addr(o),
            forall|b: usize|
                b < old(self).spec_len() ==> #[trigger] final(self).byte_at(b) == (if offset <= b < offset
                    + PAGE_SIZE {
                    page@[b - offset]
                } else {
                    old(self).byte_at(b)
                }),
    ;
}

/// The bytes of a memory as a sequence.
pub trait MemoryContents {
    /// The bytes that the memory holds, in the order of their offsets.
    spec fn contents(&self) -> Seq<u8>;
}

impl<T: VictimMemory> MemoryContents for T {
    open spec fn contents(&self) -> Seq<u8> {
        Seq::new(self.spec_len() as nat, |b: int| self.byte_at(b as usize))
    }
}

impl BytePointer for Memory {
    open spec fn wf(&self) -> bool {
        self.ptr + self.len <= usize::MAX
    }

    open spec fn spec_len(&self) -> usize {
        self.len
    }

    open spec fn spec_addr(&self, offset: usize) -> usize {
        (self.ptr + offset) as usize
    }

    fn addr(&self, offset: usize) -> (r: usize) {
        self.ptr + offset
    }

    fn ptr(&self) -> (r: usize) {
        self.ptr
    }

    fn len(&self) -> (r: usize) {
        self.len
    }
}

impl BytePointer for ConsecBlocks {
    open spec fn wf(&self) -> bool {
        ConsecBlocks::wf(*self)
    }

    open spec fn spec_len(&self) -> usize {
        if 0 <= total_len(self.blocks@) <= usize::MAX {
            total_len(self.blocks@) as usize
        } else {
            0
        }
    }

    open spec fn spec_addr(&self, offset: usize) -> usize {
        locate(self.blocks@, 0, offset as int) as usize
    }

    fn addr(&self, offset: usize) -> (r: usize) {
        ConsecBlocks::addr(self, offset)
    }

    fn ptr(&self) -> (r: usize) {
        ConsecBlocks::addr(self, 0)
    }

    fn len(&self) -> (r: usize) {
        ConsecBlocks::len(self)
    }
}

/// Memory held in a vector of bytes, for use where no mapped memory is at hand.
#[derive(Clone, Debug)]
pub struct PageBuffer {
    /// The address that the first byte stands for.
    pub base: usize,
    /// The bytes.
    pub data: Vec<u8>,
}

impl PageBuffer {
    /// A buffer of `pages` pages of zero bytes whose first byte stands for `base`.
    pub fn new(base: usize, pages: usize) -> (r: Option<Self>)
        ensures
            r.is_some() <==> base + pages * PAGE_SIZE <= usize::MAX,
            r.is_some() ==> r.unwrap().base == base && r.unwrap().data@.len() == pages * PAGE_SIZE
                && BytePointer::wf(&r.unwrap()) && forall|i: int|
                0 <= i < pages * PAGE_SIZE ==> #[trigger] r.unwrap().data@[i] == 0,
    {
        let len: usize = match pages.checked_mul(PAGE_SIZE) {
            Some(l) => l,
            None => {
                return None;
            },
        };
        if base > usize::MAX - len {
            return None;
        }
        let mut data: Vec<u8> = Vec::new();
        let mut i: usize = 0;
        while i < len
            invariant
                i <= len,
                data@.len() == i,
                forall|k: int| 0 <= k < i ==> #[trigger] data@[k] == 0,
            decreases len - i,
        {
            data.push(0u8);
            i += 1;
        }
        Some(PageBuffer { base, data })
    }
}

impl BytePointer for PageBuffer {
    open spec fn wf(&self) -> bool {
        self.base + self.data@.len() <= usize::MAX
    }

    open spec fn spec_len(&self) -> usize {
        self.data@.len() as usize
    }

    open spec fn spec_addr(&self, offset: usize) -> usize {
        (self.base + offset) as usize
    }

    fn addr(&self, offset: usize) -> (r: usize) {
        self.base + offset
    }

    fn ptr(&self) -> (r: usize) {
        self.base
    }

    fn len(&self) -> (r: usize) {
        self.data.len()
    }
}

impl VictimMemory for PageBuffer {
    open spec fn byte_at(&self, offset: usize) -> u8 {
        self.data@[offset as int]
    }

    fn read_page(&self, offset: usize) -> (r: [u8; PAGE_SIZE]) {
        let mut page: [u8; PAGE_SIZE] = [0u8; PAGE_SIZE];
        let n: usize = self.data.len();
        let mut i: usize = 0;
        while i < PAGE_SIZE
            invariant
                i <= PAGE_SIZE,
                n == self.data@.len(),
                offset + PAGE_SIZE <= n,
                forall|k: int| 0 <= k < i ==> #[trigger] page@[k] == self.data@[offset + k],
            decreases PAGE_SIZE - i,
        {
            page[i] = self.data[offset + i];
            i += 1;
        }
        page
    }

    fn write_page(&mut self, offset: usize, page: &[u8; PAGE_SIZE]) {
        let ghost before = self.data@;
        let n: usize = self.data.len();
        let mut i: usize = 0;
        while i < PAGE_SIZE
            invariant
                i <= PAGE_SIZE,
                n == before.len(),
                page@.len() == PAGE_SIZE,
                offset + PAGE_SIZE <= n,
                self.data@.len() == before.len(),
                self.base == old(self).base,
                forall|k: int| 0 <= k < i ==> #[trigger] self.data@[offset + k] == page@[k],
                forall|k: int|
                    0 <= k < before.len() && !(offset <= k < offset + i) ==> #[trigger] self.data@[k] == before[k],
            decreases PAGE_SIZE - i,
        {
            self.data.set(offset + i, page[i]);
            i += 1;
        }
        assert forall|b: usize| b < n implies #[trigger] self.data@[b as int] == (if offset <= b < offset
            + PAGE_SIZE {
            page@[b - offset]
        } else {
            before[b as int]
        }) by {
            if offset <= b < offset + PAGE_SIZE {
                assert(self.data@[offset + (b - offset)] == page@[b - offset]);
            }
        }
    }
}

/// The memory holds as many bytes as it is long.
pub proof fn lemma_contents_len<T: VictimMemory>(mem: &T)
    ensures
        mem.contents().len() == mem.spec_len(),
        forall|b: int| 0 <= b < mem.spec_len() ==> #[trigger] mem.contents()[b] == mem.byte_at(b as usize),
{
}

/// The address of the page that holds `addr`.
pub open spec fn page_of(addr: usize) -> usize {
    addr & !PAGE_MASK
}

/// Whether the page that holds `addr` is the page of one of the listed addresses.
pub open spec fn excluded(pages: Seq<usize>, addr: usize) -> bool {
    exists|i: int| 0 <= i < pages.len() && page_of(#[trigger] pages[i]) == page_of(addr)
}

/// Whether the page that holds `addr` is the page of one of the listed addresses.
pub fn page_excluded(pages: &Vec<usize>, addr: usize) -> (r: bool)
    ensures
        r == excluded(pages@, addr),
{
    let mut i: usize = 0;
    while i < pages.len()
        invariant
            i <= pages.len(),
            forall|k: int| 0 <= k < i ==> page_of(#[trigger] pages@[k]) != page_of(addr),
        decreases pages.len() - i,
    {
        if pages[i] & !PAGE_MASK == addr & !PAGE_MASK {
            return true;
        }
        i += 1;
    }
    false
}

/// The offset of the page that holds the byte at `offset`.
pub open spec fn page_start(offset: int) -> int {
    offset - offset % (PAGE_SIZE as int)
}

/// Whether the byte at `offset` lies in a page that is left out.
pub open spec fn byte_excluded<T: VictimMemory>(mem: &T, pages: Seq<usize>, offset: int) -> bool {
    excluded(pages, mem.spec_addr(page_start(offset) as usize))
}

/// The byte that `pattern` gives for the byte at `offset` of the memory, when
/// it is asked for the pages of the memory in ascending order: byte
/// `offset % PAGE_SIZE` of the page at the address of the page, asked of the
/// pattern after the pages before it.
pub open spec fn expected_byte<T: VictimMemory>(mem: &T, pattern: PatternView, offset: int) -> u8 {
    pattern.after_pages((offset / (PAGE_SIZE as int)) as nat).byte(
        mem.spec_addr(page_start(offset) as usize),
        offset % (PAGE_SIZE as int),
    )
}

/// The bytes that `pattern` gives for the memory.
pub open spec fn expected_bytes<T: VictimMemory>(mem: &T, pattern: PatternView) -> Seq<u8> {
    Seq::new(mem.spec_len() as nat, |b: int| expected_byte(mem, pattern, b))
}

/// Whether `after` is what `before` holds once `pattern` was written to it
/// with the pages `pages` left out: the bytes of a page that is left out
/// are unchanged, and the bytes of every other page are those of the
/// pattern.
pub open spec fn initialized<T: VictimMemory>(before: &T, after: &T, pattern: PatternView, pages: Seq<usize>) -> bool {
    &&& after.wf()
    &&& after.spec_len() == before.spec_len()
    &&& after.contents().len() == before.contents().len()
    &&& forall|o: usize| after.spec_addr(o) == before.spec_addr(o)
    &&& forall|b: int|
        0 <= b < before.spec_len() ==> #[trigger] after.contents()[b] == (if byte_excluded(before, pages, b) {
            before.contents()[b]
        } else {
            expected_byte(before, pattern, b)
        })
}

/// The flips among the first `n` bytes of the memory against the expected
/// bytes, in ascending order of their addresses: one for each byte that
/// differs from the expected one and lies in a page that is not left out.
pub open spec fn flips_upto<T: VictimMemory>(mem: &T, expected: Seq<u8>, pages: Seq<usize>, n: nat) -> Seq<BitFlip>
    decreases n,
{
    if n == 0 {
        Seq::empty()
    } else {
        let before = flips_upto(mem, expected, pages, (n - 1) as nat);
        let b = n - 1;
        if !byte_excluded(mem, pages, b) && mem.contents()[b] != expected[b] {
            before.push(
                BitFlip { addr: mem.spec_addr(b as usize), bitmask: mem.contents()[b] ^ expected[b], data: expected[b] },
            )
        } else {
            before
        }
    }
}

/// The flips of the memory against `pattern`, with the pages `pages` left out.
pub open spec fn flips_against<T: VictimMemory>(mem: &T, pattern: PatternView, pages: Seq<usize>) -> Seq<BitFlip> {
    flips_upto(mem, expected_bytes(mem, pattern), pages, mem.spec_len() as nat)
}

/// The flips depend on the expected bytes below `n` only.
pub proof fn lemma_flips_prefix<T: VictimMemory>(mem: &T, e1: Seq<u8>, e2: Seq<u8>, pages: Seq<usize>, n: nat)
    requires
        forall|b: int| 0 <= b < n ==> e1[b] == e2[b],
    ensures
        flips_upto(mem, e1, pages, n) == flips_upto(mem, e2, pages, n),
    decreases n,
{
    if n > 0 {
        lemma_flips_prefix(mem, e1, e2, pages, (n - 1) as nat);
    }
}

/// Memory that holds the expected byte wherever a page is not left out shows no flip.
pub proof fn lemma_no_flips<T: VictimMemory>(mem: &T, expected: Seq<u8>, pages: Seq<usize>, n: nat)
    requires
        forall|b: int| 0 <= b < n && !byte_excluded(mem, pages, b) ==> mem.contents()[b] == expected[b],
    ensures
        flips_upto(mem, expected, pages, n) == Seq::<BitFlip>::empty(),
    decreases n,
{
    if n > 0 {
        lemma_no_flips(mem, expected, pages, (n - 1) as nat);
    }
}

/// Memory that was filled with a pattern, and that nothing changed since,
/// shows no flip against that pattern: a check of the same pages finds what
/// it expects in each of them. For random data the pattern of the check is
/// the pattern of the filling at the same position of its stream, as two
/// copies of one pattern are.
pub proof fn lemma_round_trip<T: VictimMemory>(before: &T, after: &T, pattern: PatternView, pages: Seq<usize>)
    requires
        initialized(before, after, pattern, pages),
    ensures
        flips_against(after, pattern, pages) == Seq::<BitFlip>::empty(),
{
    let expected = expected_bytes(after, pattern);
    assert forall|b: int|
        0 <= b < after.spec_len() && !byte_excluded(after, pages, b) implies after.contents()[b] == expected[b] by {
        assert(after.spec_addr(page_start(b) as usize) == before.spec_addr(page_start(b) as usize));
        assert(!byte_excluded(before, pages, b));
        assert(after.contents()[b] == expected_byte(before, pattern, b));
    }
    lemma_no_flips(after, expected, pages, after.spec_len() as nat);
}

/// The bytes of a page that starts at a multiple of the page size lie in that page.
proof fn lemma_page_start(offset: int, i: int)
    requires
        0 <= offset,
        offset % (PAGE_SIZE as int) == 0,
        0 <= i < PAGE_SIZE,
    ensures
        page_start(offset + i) == offset,
        (offset + i) / (PAGE_SIZE as int) == offset / (PAGE_SIZE as int),
        (offset + i) % (PAGE_SIZE as int) == i,
        (offset + PAGE_SIZE) / (PAGE_SIZE as int) == offset / (PAGE_SIZE as int) + 1,
{
}

/// A page that is left out adds no flip.
proof fn lemma_excluded_page<T: VictimMemory>(mem: &T, expected: Seq<u8>, pages: Seq<usize>, offset: int, i: nat)
    requires
        0 <= offset,
        offset % (PAGE_SIZE as int) == 0,
        i <= PAGE_SIZE,
        excluded(pages, mem.spec_addr(offset as usize)),
    ensures
        flips_upto(mem, expected, pages, (offset + i) as nat) == flips_upto(mem, expected, pages, offset as nat),
    decreases i,
{
    if i > 0 {
        lemma_excluded_page(mem, expected, pages, offset, (i - 1) as nat);
        lemma_page_start(offset, i - 1);
    }
}

/// The byte that a pattern gives for a byte of the page at `offset`, where
/// the pattern `now` is the pattern `first` after the pages before `offset`.
proof fn lemma_expected_in_page<T: VictimMemory>(mem: &T, first: PatternView, now: PatternView, offset: int, i: int)
    requires
        0 <= offset,
        offset % (PAGE_SIZE as int) == 0,
        0 <= i < PAGE_SIZE,
        now == first.after_pages((offset / (PAGE_SIZE as int)) as nat),
    ensures
        expected_byte(mem, first, offset + i) == now.page(mem.spec_addr(offset as usize))[i],
{
    lemma_page_start(offset, i);
}

/// A pattern after one more page.
proof fn lemma_next_page(first: PatternView, offset: int)
    requires
        0 <= offset,
        offset % (PAGE_SIZE as int) == 0,
    ensures
        first.after_pages((offset / (PAGE_SIZE as int)) as nat).after_pages(1) == first.after_pages(
            ((offset + PAGE_SIZE) / (PAGE_SIZE as int)) as nat,
        ),
{
    lemma_page_start(offset, 0);
    let k = offset / (PAGE_SIZE as int);
    assert((k + 1) * PAGE_SIZE == k * PAGE_SIZE + PAGE_SIZE) by (nonlinear_arith);
}

/// Writes `pattern` to every page of the memory except the pages of the
/// listed addresses.
///
/// The pattern is asked for every page in ascending order, for the pages
/// that are left out too, so that random data does not depend on which pages
/// are left out.
pub fn initialize_excluding<T: VictimMemory>(mem: &mut T, pattern: DataPattern, pages: &Vec<usize>)
    requires
        old(mem).wf(),
        old(mem).spec_len() % PAGE_SIZE == 0,
    ensures
        initialized(old(mem), final(mem), pattern@, pages@),
{
    let ghost start = *mem;
    let ghost first = pattern@;
    let mut pattern = pattern;
    let len: usize = mem.len();
    proof {
        lemma_contents_len(&start);
    }
    let mut offset: usize = 0;
    while offset < len
        invariant
            offset <= len,
            offset % PAGE_SIZE == 0,
            len % PAGE_SIZE == 0,
            len == start.spec_len(),
            mem.wf(),
            mem.spec_len() == start.spec_len(),
            mem.contents().len() == start.contents().len(),
            start.contents().len() == len,
            forall|o: usize| mem.spec_addr(o) == start.spec_addr(o),
            pattern@ == first.after_pages((offset as int / (PAGE_SIZE as int)) as nat),
            forall|b: int|
                0 <= b < offset ==> #[trigger] mem.contents()[b] == (if byte_excluded(&start, pages@, b) {
                    start.contents()[b]
                } else {
                    expected_byte(&start, first, b)
                }),
            forall|b: int| offset <= b < len ==> #[trigger] mem.contents()[b] == start.contents()[b],
        decreases len - offset,
    {
        let addr = mem.addr(offset);
        let ghost now = pattern@;
        let val = pattern.get(addr);
        let ghost before = mem.contents();
        let ghost prev = *mem;
        proof {
            lemma_contents_len(&prev);
        }
        if !page_excluded(pages, addr) {
            mem.write_page(offset, &val);
            proof {
                lemma_contents_len(mem);
                assert(val@.len() == PAGE_SIZE);
                assert forall|b: int| 0 <= b < len implies #[trigger] mem.contents()[b] == (if offset <= b < offset
                    + PAGE_SIZE {
                    val@[b - offset]
                } else {
                    before[b]
                }) by {
                    assert(mem.contents()[b] == mem.byte_at(b as usize));
                    assert(before[b] == prev.byte_at(b as usize));
                }
            }
        }
        proof {
            lemma_next_page(first, offset as int);
            assert forall|b: int| 0 <= b < offset + PAGE_SIZE implies #[trigger] mem.contents()[b] == (
            if byte_excluded(&start, pages@, b) {
                start.contents()[b]
            } else {
                expected_byte(&start, first, b)
            }) by {
                if b >= offset {
                    lemma_page_start(offset as int, b - offset);
                    lemma_expected_in_page(&start, first, now, offset as int, b - offset);
                    assert(before[b] == start.contents()[b]);
                } else {
                    assert(before[b] == mem.contents()[b]);
                }
            }
            assert forall|b: int| offset + PAGE_SIZE <= b < len implies #[trigger] mem.contents()[b]
                == start.contents()[b] by {
                assert(before[b] == start.contents()[b]);
            }
        }
        offset += PAGE_SIZE;
    }
}

/// Writes `pattern` to every page of the memory.
pub fn initialize<T: VictimMemory>(mem: &mut T, pattern: DataPattern)
    requires
        old(mem).wf(),
        old(mem).spec_len() % PAGE_SIZE == 0,
    ensures
        initialized(old(mem), final(mem), pattern@, Seq::<usize>::empty()),
{
    let pages: Vec<usize> = Vec::new();
    initialize_excluding(mem, pattern, &pages);
}

/// Checks every page of the memory, except the pages of the listed
/// addresses, against `pattern` and returns the bytes that differ.
///
/// The flips come in ascending order of their addresses. Each holds the
/// address of the byte, the bits in which the byte differs from the expected
/// one, and the expected byte.
pub fn check_excluding<T: VictimMemory>(mem: &T, pattern: DataPattern, pages: &Vec<usize>) -> (r: Vec<BitFlip>)
    requires
        mem.wf(),
        mem.spec_len() % PAGE_SIZE == 0,
    ensures
        r@ == flips_against(mem, pattern@, pages@),
{
    let ghost first = pattern@;
    let ghost expected = expected_bytes(mem, first);
    let mut pattern = pattern;
    let len: usize = mem.len();
    proof {
        lemma_contents_len(mem);
    }
    let mut ret: Vec<BitFlip> = Vec::new();
    let mut offset: usize = 0;
    while offset < len
        invariant
            offset <= len,
            offset % PAGE_SIZE == 0,
            len % PAGE_SIZE == 0,
            len == mem.spec_len(),
            mem.contents().len() == len,
            mem.wf(),
            expected == expected_bytes(mem, first),
            pattern@ == first.after_pages((offset as int / (PAGE_SIZE as int)) as nat),
            ret@ == flips_upto(mem, expected, pages@, offset as nat),
        decreases len - offset,
    {
        let addr = mem.addr(offset);
        let ghost now = pattern@;
        let val = pattern.get(addr);
        proof {
            assert(val@.len() == PAGE_SIZE);
            lemma_next_page(first, offset as int);
        }
        if page_excluded(pages, addr) {
            proof {
                lemma_excluded_page(mem, expected, pages@, offset as int, PAGE_SIZE as nat);
            }
        } else {
            let actual = mem.read_page(offset);
            proof {
                assert(actual@.len() == PAGE_SIZE);
                assert(actual@ =~= mem.contents().subrange(offset as int, offset + PAGE_SIZE)) by {
                    assert forall|k: int| 0 <= k < PAGE_SIZE implies actual@[k] == mem.contents()[offset + k] by {
                        assert(mem.contents()[offset + k] == mem.byte_at((offset + k) as usize));
                    }
                }
            }
            let mut i: usize = 0;
            while i < PAGE_SIZE
                invariant
                    i <= PAGE_SIZE,
                    offset + PAGE_SIZE <= len,
                    offset % PAGE_SIZE == 0,
                    len == mem.spec_len(),
                    mem.contents().len() == len,
                    mem.wf(),
                    expected == expected_bytes(mem, first),
                    now == first.after_pages((offset as int / (PAGE_SIZE as int)) as nat),
                    val@ == now.page(addr),
                    addr == mem.spec_addr(offset),
                    !excluded(pages@, addr),
                    actual@ == mem.contents().subrange(offset as int, offset + PAGE_SIZE),
                    ret@ == flips_upto(mem, expected, pages@, (offset + i) as nat),
                decreases PAGE_SIZE - i,
            {
                proof {
                    lemma_page_start(offset as int, i as int);
                    lemma_expected_in_page(mem, first, now, offset as int, i as int);
                    assert(actual@[i as int] == mem.contents()[offset + i]);
                    assert(expected[offset + i] == val@[i as int]);
                }
                if actual[i] != val[i] {
                    let byte_addr = mem.addr(offset + i);
                    ret.push(BitFlip::new(byte_addr, actual[i] ^ val[i], val[i]));
                }
                i += 1;
            }
        }
        offset += PAGE_SIZE;
    }
    ret
}

/// Checks every page of the memory against `pattern` and returns the bytes
/// that differ.
pub fn check<T: VictimMemory>(mem: &T, pattern: DataPattern) -> (r: Vec<BitFlip>)
    requires
        mem.wf(),
        mem.spec_len() % PAGE_SIZE == 0,
    ensures
        r@ == flips_against(mem, pattern@, Seq::<usize>::empty()),
{
    let pages: Vec<usize> = Vec::new();
    check_excluding(mem, pattern, &pages)
}

/// Memory that can be filled with a data pattern.
pub trait Initializable: VictimMemory + Sized {
    /// Fills the memory with the given data pattern.
    fn initialize(&mut self, pattern: DataPattern)
        requires
            old(self).wf(),
            old(self).spec_len() % PAGE_SIZE == 0,
        ensures
            initialized(old(self), final(self), pattern@, Seq::<usize>::empty()),
    ;

    /// Fills the memory with the given data pattern, leaving out the pages of
    /// the listed addresses.
    fn initialize_excluding(&mut self, pattern: DataPattern, pages: &Vec<usize>)
        requires
            old(self).wf(),
            old(self).spec_len() % PAGE_SIZE == 0,
        ensures
            initialized(old(self), final(self), pattern@, pages@),
    ;
}

/// Memory that can be checked for bit flips.
pub trait Checkable: VictimMemory + Sized {
    /// Checks the memory against a pattern and returns the bit flips.
    fn check(&self, pattern: DataPattern) -> (r: Vec<BitFlip>)
        requires
            self.wf(),
            self.spec_len() % PAGE_SIZE == 0,
        ensures
            r@ == flips_against(self, pattern@, Seq::<usize>::empty()),
    ;

    /// Checks the memory against a pattern, leaving out the pages of the
    /// listed addresses.
    fn check_excluding(&self, pattern: DataPattern, pages: &Vec<usize>) -> (r: Vec<BitFlip>)
        requires
            self.wf(),
            self.spec_len() % PAGE_SIZE == 0,
        ensures
            r@ == flips_against(self, pattern@, pages@),
    ;
}

impl<T: VictimMemory> Initializable for T {
    fn initialize(&mut self, pattern: DataPattern) {
        self::initialize(self, pattern)
    }

    fn initialize_excluding(&mut self, pattern: DataPattern, pages: &Vec<usize>) {
        self::initialize_excluding(self, pattern, pages)
    }
}

impl<T: VictimMemory> Checkable for T {
    fn check(&self, pattern: DataPattern) -> (r: Vec<BitFlip>) {
        self::check(self, pattern)
    }

    fn check_excluding(&self, pattern: DataPattern, pages: &Vec<usize>) -> (r: Vec<BitFlip>) {
        self::check_excluding(self, pattern, pages)
    }
}

/// What is to be written to, or expected of, the page at `addr`: the content
/// that the pattern gives, or `None` where the page is left out. The pattern
/// is asked in both cases, and moves on by a page.
pub fn expected_page(pattern: &mut DataPattern, addr: usize, pages: &Vec<usize>) -> (r: Option<[u8; PAGE_SIZE]>)
    ensures
        r is None <==> excluded(pages@, addr),
        r is Some ==> r.unwrap()@ == old(pattern)@.page(addr),
        final(pattern)@ == old(pattern)@.after_pages(1),
{
    let val = pattern.get(addr);
    if page_excluded(pages, addr) {
        None
    } else {
        Some(val)
    }
}

/// The flips among the first `n` bytes of a page at `addr`: one for each
/// byte that differs from the expected one, in ascending order.
pub open spec fn page_flips(addr: usize, actual: Seq<u8>, expected: Seq<u8>, n: nat) -> Seq<BitFlip>
    decreases n,
{
    if n == 0 {
        Seq::empty()
    } else {
        let before = page_flips(addr, actual, expected, (n - 1) as nat);
        let i = n - 1;
        if actual[i] != expected[i] {
            before.push(BitFlip { addr: (addr + i) as usize, bitmask: actual[i] ^ expected[i], data: expected[i] })
        } else {
            before
        }
    }
}

/// Compares a page that was read at `addr` with the expected page and
/// returns the bytes that differ.
pub fn compare_page(addr: usize, actual: &[u8; PAGE_SIZE], expected: &[u8; PAGE_SIZE]) -> (r: Vec<BitFlip>)
    requires
        addr + PAGE_SIZE <= usize::MAX,
    ensures
        r@ == page_flips(addr, actual@, expected@, PAGE_SIZE as nat),
{
    let mut ret: Vec<BitFlip> = Vec::new();
    let mut i: usize = 0;
    while i < PAGE_SIZE
        invariant
            i <= PAGE_SIZE,
            addr + PAGE_SIZE <= usize::MAX,
            ret@ == page_flips(addr, actual@, expected@, i as nat),
        decreases PAGE_SIZE - i,
    {
        if actual[i] != expected[i] {
            ret.push(BitFlip::new(addr + i, actual[i] ^ expected[i], expected[i]));
        }
        i += 1;
    }
    ret
}

/// A page that holds what is expected shows no flip.
pub proof fn lemma_equal_page_no_flips(addr: usize, actual: Seq<u8>, expected: Seq<u8>, n: nat)
    requires
        forall|i: int| 0 <= i < n ==> actual[i] == expected[i],
    ensures
        page_flips(addr, actual, expected, n) == Seq::<BitFlip>::empty(),
    decreases n,
{
    if n > 0 {
        lemma_equal_page_no_flips(addr, actual, expected, (n - 1) as nat);
    }
}

} // verus!
