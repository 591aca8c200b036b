//! The search for session credentials in the memory of the user's own chat client.
//!
//! The memory of each process is walked region by region, in chunks, within a budget of bytes.
//! Which region is worth reading, what to read next and what counts as a credential is decided
//! here; the caller performs the queries and the reads.

use vstd::prelude::*;

use crate::order::{ascending, TextSet};
use crate::text;

verus! {

/// A credential has at least this many characters.
pub const MIN_CREDENTIAL: usize = 40;

/// Memory is read in chunks of at most this many bytes.
pub const CHUNK: u64 = 4194304;

/// No address from here on is queried.
pub const MAX_ADDRESS: u64 = 0x7FFF_FFFF_FFFF;

/// At most this many bytes are scanned per process.
pub const SCAN_BUDGET: u64 = 250_000_000;

/// Win32's `PAGE_READONLY`.
pub const PAGE_READONLY: u32 = 0x02;

/// Win32's `PAGE_READWRITE`.
pub const PAGE_READWRITE: u32 = 0x04;

/// Win32's `PAGE_GUARD`.
pub const PAGE_GUARD: u32 = 0x100;

// ---------------------------------------------------------------------------------------------
// Credentials in a block of bytes
// ---------------------------------------------------------------------------------------------
/// A byte that can stand in a credential.
pub open spec fn is_token_byte(b: u8) -> bool {
    ||| 48 <= b <= 57
    ||| 65 <= b <= 90
    ||| 97 <= b <= 122
    ||| b == 45
    ||| b == 95
    ||| b == 43
    ||| b == 47
    ||| b == 61
    ||| b == 37
}

/// Whether a byte can stand in a credential: an ASCII letter or digit, or one of `-_+/=%`.
fn token_byte(b: u8) -> (r: bool)
    ensures
        r == is_token_byte(b),
{
    (48 <= b && b <= 57) || (65 <= b && b <= 90) || (97 <= b && b <= 122) || b == 45 || b == 95
        || b == 43 || b == 47 || b == 61 || b == 37
}

/// Where the run of credential bytes that begins at `i` ends.
pub open spec fn run_end(buf: Seq<u8>, i: int) -> int
    decreases buf.len() - i,
{
    if 0 <= i < buf.len() && is_token_byte(buf[i]) {
        run_end(buf, i + 1)
    } else {
        i
    }
}

/// `prefix` stands in the block at position `i`.
pub open spec fn prefix_at(buf: Seq<u8>, prefix: Seq<u8>, i: int) -> bool {
    0 <= i && i + prefix.len() <= buf.len() && buf.subrange(i, i + prefix.len()) == prefix
}

/// The characters that the bytes stand for.
pub open spec fn ascii_text(bytes: Seq<u8>) -> Seq<char> {
    bytes.map_values(|b: u8| b as char)
}

/// The credentials in the block from position `i` on. One begins at an occurrence of the prefix
/// that something follows, extends as far as credential bytes do, and is long enough; the search
/// goes on behind it.
pub open spec fn captured_from(buf: Seq<u8>, prefix: Seq<u8>, i: int) -> Set<Seq<char>>
    decreases buf.len() - i,
{
    if i < 0 || i + prefix.len() >= buf.len() {
        Set::empty()
    } else if prefix_at(buf, prefix, i) {
        proof {
            lemma_run_end(buf, i);
        }
        let j = run_end(buf, i);
        let rest = captured_from(
            buf,
            prefix,
            if j > i {
                j
            } else {
                i + 1
            },
        );
        if j - i >= MIN_CREDENTIAL {
            rest.insert(ascii_text(buf.subrange(i, j)))
        } else {
            rest
        }
    } else {
        captured_from(buf, prefix, i + 1)
    }
}

/// The credentials with this prefix in the block.
pub open spec fn captured(buf: Seq<u8>, prefix: Seq<u8>) -> Set<Seq<char>> {
    captured_from(buf, prefix, 0)
}

/// A run ends at the first byte that cannot stand in a credential, or with the block.
pub proof fn lemma_run_end(buf: Seq<u8>, i: int)
    requires
        0 <= i <= buf.len(),
    ensures
        i <= run_end(buf, i) <= buf.len(),
        forall|k: int| i <= k < run_end(buf, i) ==> is_token_byte(#[trigger] buf[k]),
        run_end(buf, i) < buf.len() ==> !is_token_byte(buf[run_end(buf, i)]),
    decreases buf.len() - i,
{
    if i < buf.len() && is_token_byte(buf[i]) {
        lemma_run_end(buf, i + 1);
    }
}

/// `t` is a credential of the block that begins at `i`: the prefix stands there, and `t` is the
/// whole run of credential bytes from there on, which is long enough.
pub open spec fn is_credential_at(buf: Seq<u8>, prefix: Seq<u8>, t: Seq<char>, i: int) -> bool {
    &&& prefix_at(buf, prefix, i)
    &&& run_end(buf, i) - i >= MIN_CREDENTIAL
    &&& t == ascii_text(buf.subrange(i, run_end(buf, i)))
}

proof fn lemma_captured_sound(buf: Seq<u8>, prefix: Seq<u8>, i: int, t: Seq<char>)
    requires
        captured_from(buf, prefix, i).contains(t),
    ensures
        exists|k: int| is_credential_at(buf, prefix, t, k),
    decreases buf.len() - i,
{
    if i < 0 || i + prefix.len() >= buf.len() {
    } else if prefix_at(buf, prefix, i) {
        let j = run_end(buf, i);
        lemma_run_end(buf, i);
        let next = if j > i {
            j
        } else {
            i + 1
        };
        if captured_from(buf, prefix, next).contains(t) {
            lemma_captured_sound(buf, prefix, next, t);
        } else {
            assert(is_credential_at(buf, prefix, t, i));
        }
    } else {
        lemma_captured_sound(buf, prefix, i + 1, t);
    }
}

/// Whatever is captured is a whole run of credential bytes that begins with the prefix and is
/// long enough.
pub proof fn law_captured_are_credentials(buf: Seq<u8>, prefix: Seq<u8>, t: Seq<char>)
    requires
        captured(buf, prefix).contains(t),
    ensures
        exists|i: int| is_credential_at(buf, prefix, t, i),
{
    lemma_captured_sound(buf, prefix, 0, t);
}

proof fn lemma_captured_complete(buf: Seq<u8>, prefix: Seq<u8>, p: int, i: int)
    requires
        0 <= p <= i,
        i + prefix.len() < buf.len(),
        prefix_at(buf, prefix, i),
        run_end(buf, i) - i >= MIN_CREDENTIAL,
        forall|k: int|
            0 <= k < i && run_end(buf, k) >= i ==> !#[trigger] prefix_at(buf, prefix, k),
    ensures
        captured_from(buf, prefix, p).contains(ascii_text(buf.subrange(i, run_end(buf, i)))),
    decreases i - p,
{
    if p < i {
        if prefix_at(buf, prefix, p) {
            lemma_run_end(buf, p);
            let j = run_end(buf, p);
            let next = if j > p {
                j
            } else {
                p + 1
            };
            lemma_captured_complete(buf, prefix, next, i);
        } else {
            lemma_captured_complete(buf, prefix, p + 1, i);
        }
    }
}

/// No credential is missed: where the prefix stands, is followed by something, is not inside the
/// run of an earlier occurrence, and begins a run that is long enough, that run is captured.
pub proof fn law_credentials_are_captured(buf: Seq<u8>, prefix: Seq<u8>, i: int)
    requires
        i + prefix.len() < buf.len(),
        prefix_at(buf, prefix, i),
        run_end(buf, i) - i >= MIN_CREDENTIAL,
        forall|k: int|
            0 <= k < i && run_end(buf, k) >= i ==> !#[trigger] prefix_at(buf, prefix, k),
    ensures
        captured(buf, prefix).contains(ascii_text(buf.subrange(i, run_end(buf, i)))),
{
    lemma_captured_complete(buf, prefix, 0, i);
}

proof fn lemma_run_stops(a: Seq<u8>, b: Seq<u8>, i: int)
    requires
        0 <= i <= a.len(),
        b.len() > 0 ==> !is_token_byte(b[0]),
    ensures
        run_end(a + b, i) == run_end(a, i),
    decreases a.len() - i,
{
    if i < a.len() {
        assert((a + b)[i] == a[i]);
        if is_token_byte(a[i]) {
            lemma_run_stops(a, b, i + 1);
        }
    } else if b.len() > 0 {
        assert((a + b)[i] == b[0]);
    }
}

proof fn lemma_run_shifts(a: Seq<u8>, b: Seq<u8>, i: int)
    requires
        0 <= i <= b.len(),
    ensures
        run_end(a + b, a.len() + i) == a.len() + run_end(b, i),
    decreases b.len() - i,
{
    if i < b.len() {
        assert((a + b)[a.len() + i] == b[i]);
        if is_token_byte(b[i]) {
            lemma_run_shifts(a, b, i + 1);
        }
    }
}

/// What is captured behind a front is what is captured in the rest alone.
proof fn lemma_captured_shifts(a: Seq<u8>, b: Seq<u8>, prefix: Seq<u8>, i: int)
    requires
        0 <= i <= b.len(),
    ensures
        captured_from(a + b, prefix, a.len() + i) == captured_from(b, prefix, i),
    decreases b.len() - i,
{
    let buf = a + b;
    let n = a.len() as int;
    if i + prefix.len() < b.len() {
        assert(buf.subrange(n + i, n + i + prefix.len()) =~= b.subrange(i, i + prefix.len()));
        if prefix_at(b, prefix, i) {
            lemma_run_end(b, i);
            lemma_run_shifts(a, b, i);
            let j = run_end(b, i);
            assert(buf.subrange(n + i, n + j) =~= b.subrange(i, j));
            lemma_captured_shifts(
                a,
                b,
                prefix,
                if j > i {
                    j
                } else {
                    i + 1
                },
            );
        } else {
            lemma_captured_shifts(a, b, prefix, i + 1);
        }
    }
}

proof fn lemma_captured_splits(a: Seq<u8>, z: u8, b: Seq<u8>, prefix: Seq<u8>, i: int)
    requires
        0 <= i <= a.len(),
        0 < prefix.len() < MIN_CREDENTIAL,
        forall|k: int| 0 <= k < prefix.len() ==> is_token_byte(#[trigger] prefix[k]),
        !is_token_byte(z),
    ensures
        captured_from(a + seq![z] + b, prefix, i) == captured_from(a, prefix, i).union(
            captured(b, prefix),
        ),
    decreases a.len() - i,
{
    let buf = a + seq![z] + b;
    let n = a.len() as int;
    let rest = captured(b, prefix);
    if i + prefix.len() >= buf.len() {
        assert(captured_from(a, prefix, i).union(rest) =~= Set::<Seq<char>>::empty());
    } else if i + prefix.len() > n {
        if prefix_at(buf, prefix, i) {
            assert(buf.subrange(i, i + prefix.len())[n - i] == z);
            assert(is_token_byte(prefix[n - i]));
        }
        assert(captured_from(a, prefix, i).union(rest) =~= rest);
        if i < n {
            lemma_captured_splits(a, z, b, prefix, i + 1);
            assert(captured_from(a, prefix, i + 1).union(rest) =~= rest);
        } else {
            lemma_captured_shifts(a + seq![z], b, prefix, 0);
        }
    } else {
        assert(buf.subrange(i, i + prefix.len()) =~= a.subrange(i, i + prefix.len()));
        if prefix_at(buf, prefix, i) {
            assert(buf =~= a + (seq![z] + b));
            lemma_run_stops(a, seq![z] + b, i);
            lemma_run_end(a, i);
            let j = run_end(a, i);
            assert(is_token_byte(prefix[0]));
            assert(a.subrange(i, i + prefix.len())[0] == a[i]);
            assert(j > i) by {
                lemma_run_end(a, i + 1);
            }
            assert(buf.subrange(i, j) =~= a.subrange(i, j));
            lemma_captured_splits(a, z, b, prefix, j);
            let t = ascii_text(a.subrange(i, j));
            let tail = captured_from(a, prefix, j);
            assert(tail.insert(t).union(rest) =~= tail.union(rest).insert(t));
            if i + prefix.len() == n {
                assert(tail =~= Set::<Seq<char>>::empty());
            }
        } else {
            lemma_captured_splits(a, z, b, prefix, i + 1);
            if i + prefix.len() == n {
                assert(captured_from(a, prefix, i + 1) =~= captured_from(a, prefix, i));
            }
        }
    }
}

/// A byte that no credential holds splits a block: to capture from the block is to capture from
/// what stands before the byte and then from what stands behind it. And to capture from a block
/// once more changes nothing.
pub proof fn law_capture_splits(
    a: Seq<u8>,
    z: u8,
    b: Seq<u8>,
    prefix: Seq<u8>,
    out: Set<Seq<char>>,
)
    requires
        0 < prefix.len() < MIN_CREDENTIAL,
        forall|k: int| 0 <= k < prefix.len() ==> is_token_byte(#[trigger] prefix[k]),
        !is_token_byte(z),
    ensures
        captured(a + seq![z] + b, prefix) == captured(a, prefix).union(captured(b, prefix)),
        out.union(captured(a + seq![z] + b, prefix)) == out.union(captured(a, prefix)).union(
            captured(b, prefix),
        ),
        out.union(captured(a, prefix)).union(captured(a, prefix)) == out.union(captured(a, prefix)),
{
    lemma_captured_splits(a, z, b, prefix, 0);
    let x = captured(a, prefix);
    let y = captured(b, prefix);
    assert(out.union(x.union(y)) =~= out.union(x).union(y));
    assert(out.union(x).union(x) =~= out.union(x));
}

/// The text can be a credential with this prefix: it begins with it and is long enough.
pub open spec fn is_credential(t: Seq<char>, prefix: Seq<u8>) -> bool {
    t.len() >= MIN_CREDENTIAL && text::begins_with(t, ascii_text(prefix))
}

/// Every text of the set can be a credential with this prefix.
pub open spec fn are_credentials(set: Set<Seq<char>>, prefix: Seq<u8>) -> bool {
    forall|t: Seq<char>| #[trigger] set.contains(t) ==> is_credential(t, prefix)
}

/// Whatever is captured begins with the prefix and is long enough.
pub proof fn law_captured_begin_with_prefix(buf: Seq<u8>, prefix: Seq<u8>)
    requires
        prefix.len() <= MIN_CREDENTIAL,
    ensures
        are_credentials(captured(buf, prefix), prefix),
{
    assert forall|t: Seq<char>| #[trigger] captured(buf, prefix).contains(t) implies is_credential(
        t,
        prefix,
    ) by {
        law_captured_are_credentials(buf, prefix, t);
        let i = choose|i: int| is_credential_at(buf, prefix, t, i);
        let run = buf.subrange(i, run_end(buf, i));
        lemma_run_end(buf, i);
        assert forall|k: int| 0 <= k < prefix.len() implies run[k] == prefix[k] by {
            assert(buf.subrange(i, i + prefix.len())[k] == prefix[k]);
        }
        assert(t.take(prefix.len() as int) =~= ascii_text(prefix));
    }
}

proof fn lemma_captured_are(buf: Seq<u8>, prefix: Seq<u8>, found: Set<Seq<char>>)
    requires
        prefix.len() <= MIN_CREDENTIAL,
        are_credentials(found, prefix),
    ensures
        are_credentials(found.union(captured(buf, prefix)), prefix),
{
    law_captured_begin_with_prefix(buf, prefix);
}

fn prefix_stands_at(buf: &[u8], prefix: &[u8], i: usize) -> (r: bool)
    requires
        i + prefix@.len() <= buf@.len(),
    ensures
        r == prefix_at(buf@, prefix@, i as int),
{
    let mut k: usize = 0;
    let n: usize = buf.len();
    while k < prefix.len()
        invariant
            k <= prefix@.len(),
            n == buf@.len(),
            i + prefix@.len() <= n,
            forall|m: int| 0 <= m < k ==> buf@[i + m] == prefix@[m],
        decreases prefix@.len() - k,
    {
        if buf[i + k] != prefix[k] {
            assert(buf@.subrange(i as int, i + prefix@.len())[k as int] != prefix@[k as int]);
            return false;
        }
        k = k + 1;
    }
    assert(buf@.subrange(i as int, i + prefix@.len()) =~= prefix@);
    true
}

/// Adds the credentials with this prefix in the block to the set.
pub fn capture(buf: &[u8], prefix: &[u8], out: &mut TextSet)
    requires
        old(out).valid(),
    ensures
        final(out).valid(),
        final(out)@ == old(out)@.union(captured(buf@, prefix@)),
{
    let n: usize = buf.len();
    let mut i: usize = 0;
    let ghost all = out@.union(captured(buf@, prefix@));
    while prefix.len() < n - i
        invariant
            i <= n,
            n == buf@.len(),
            out.valid(),
            out@.union(captured_from(buf@, prefix@, i as int)) == all,
        decreases n - i,
    {
        if prefix_stands_at(buf, prefix, i) {
            let mut j: usize = i;
            let mut s: String = String::new();
            assert(ascii_text(buf@.subrange(i as int, i as int)) =~= s@);
            while j < n && token_byte(buf[j])
                invariant
                    i <= j <= n,
                    n == buf@.len(),
                    run_end(buf@, i as int) == run_end(buf@, j as int),
                    s@ == ascii_text(buf@.subrange(i as int, j as int)),
                decreases n - j,
            {
                s.push(buf[j] as char);
                proof {
                    assert(s@ =~= ascii_text(buf@.subrange(i as int, j + 1)));
                }
                j = j + 1;
            }
            let ghost before = out@;
            let ghost next = if j > i {
                j as int
            } else {
                i + 1
            };
            let ghost rest = captured_from(buf@, prefix@, next);
            if j - i >= MIN_CREDENTIAL {
                let ghost view = s@;
                out.insert(s);
                assert(before.insert(view).union(rest) =~= before.union(rest.insert(view)));
            }
            if j > i {
                i = j;
            } else {
                i = i + 1;
            }
        } else {
            i = i + 1;
        }
    }
    assert(out@.union(Set::<Seq<char>>::empty()) =~= out@);
}

// ---------------------------------------------------------------------------------------------
// The walk through the memory of a process
// ---------------------------------------------------------------------------------------------
/// What a query says of the region of memory that holds an address.
#[derive(Clone, Copy)]
pub struct Region {
    /// The first address of the region.
    pub base: u64,
    /// The number of bytes in it.
    pub size: u64,
    /// Its protection flags.
    pub protect: u32,
    /// Whether it is backed by storage.
    pub committed: bool,
    /// Whether no other process shares it.
    pub private: bool,
}

/// The region can hold credentials: it is committed, private, readable, not guarded, not empty.
pub open spec fn is_readable(r: Region) -> bool {
    &&& r.committed
    &&& r.private
    &&& (r.protect & PAGE_READWRITE != 0 || r.protect & PAGE_READONLY != 0)
    &&& r.protect & PAGE_GUARD == 0
    &&& r.size > 0
}

/// Whether the region is worth reading.
fn readable(r: Region) -> (b: bool)
    ensures
        b == is_readable(r),
{
    r.committed && r.private && ((r.protect & PAGE_READWRITE) != 0 || (r.protect & PAGE_READONLY)
        != 0) && (r.protect & PAGE_GUARD) == 0 && r.size > 0
}

/// What a scan is at.
#[derive(Clone, Copy)]
pub enum ScanPhase {
    /// The next region is to be queried.
    Asking,
    /// The region is being read, from this offset on.
    Reading { base: u64, size: u64, off: u64 },
    /// Nothing is left to do.
    Finished,
}

/// What is to be done next for a scan.
#[derive(Clone, Copy)]
pub enum ScanAction {
    /// Query the region that holds this address.
    Query { addr: u64 },
    /// Read this many bytes from this address on.
    Read { addr: u64, len: u64 },
    /// Stop.
    Done,
}

/// A scan of the memory of one process.
pub struct Scan {
    /// The bytes that may be read.
    pub budget: u64,
    /// The address to query next.
    pub addr: u64,
    /// The bytes that were read.
    pub scanned: u64,
    /// What the scan is at.
    pub phase: ScanPhase,
    /// The tokens that were found.
    pub tokens: TextSet,
    /// The cookies that were found.
    pub cookies: TextSet,
}

/// The length of the next chunk of a region.
pub open spec fn chunk_len(size: u64, off: u64) -> int {
    if size - off < CHUNK {
        size - off
    } else {
        CHUNK as int
    }
}

/// How much of the next chunk of a region is read: all of it, but no more than what is left of
/// the budget.
pub open spec fn read_len(size: u64, off: u64, left: int) -> int {
    if chunk_len(size, off) < left {
        chunk_len(size, off)
    } else {
        left
    }
}

/// The sum of two addresses, modulo the number of addresses.
pub open spec fn wrapped(a: u64, b: u64) -> u64 {
    ((a + b) % 0x1_0000_0000_0000_0000) as u64
}

/// Where a scan goes on behind a region: at the address that follows it, as long as that is
/// higher than the one that was asked for.
pub open spec fn moved_on(addr: u64, base: u64, size: u64) -> (ScanPhase, u64) {
    if wrapped(base, size) <= addr {
        (ScanPhase::Finished, addr)
    } else {
        (ScanPhase::Asking, wrapped(base, size))
    }
}

/// What a scan is at, and the address it asks for next, once a query is answered.
pub open spec fn after_region(addr: u64, reply: Option<Region>) -> (ScanPhase, u64) {
    match reply {
        None => (ScanPhase::Finished, addr),
        Some(r) => if is_readable(r) {
            (ScanPhase::Reading { base: r.base, size: r.size, off: 0 }, addr)
        } else {
            moved_on(addr, r.base, r.size)
        },
    }
}

/// What a scan is at, and the address it asks for next, once a chunk is dealt with.
pub open spec fn after_chunk(
    addr: u64,
    base: u64,
    size: u64,
    off: u64,
    within_budget: bool,
) -> (ScanPhase, u64) {
    let next = off + chunk_len(size, off);
    if next < size && within_budget {
        (ScanPhase::Reading { base, size, off: next as u64 }, addr)
    } else {
        moved_on(addr, base, size)
    }
}

/// The bytes of a read that count: those of one that succeeded and gave more than one byte.
pub open spec fn counted(reply: Option<Seq<u8>>) -> Seq<u8> {
    match reply {
        Some(bytes) if bytes.len() > 1 => bytes,
        _ => Seq::empty(),
    }
}

impl Scan {
    /// Enough of the budget is left for another read: a read of a single byte counts for nothing.
    pub open spec fn has_budget(self) -> bool {
        self.budget - self.scanned > 1
    }

    /// The scan is in order: a read is pending only within the region and the budget, no more was
    /// read than the budget allows, and what was found are credentials.
    pub open spec fn valid(self) -> bool {
        &&& self.scanned <= self.budget
        &&& are_credentials(self.tokens@, TOKEN_PREFIX@)
        &&& are_credentials(self.cookies@, COOKIE_PREFIX@)
        &&& self.tokens.valid()
        &&& self.cookies.valid()
        &&& match self.phase {
            ScanPhase::Reading { base, size, off } => off < size && self.has_budget(),
            _ => true,
        }
    }

    /// What is to be done next.
    pub open spec fn action(self) -> ScanAction {
        match self.phase {
            ScanPhase::Asking => if self.addr < MAX_ADDRESS && self.has_budget() {
                ScanAction::Query { addr: self.addr }
            } else {
                ScanAction::Done
            },
            ScanPhase::Reading { base, size, off } => ScanAction::Read {
                addr: wrapped(base, off),
                len: read_len(size, off, self.budget - self.scanned) as u64,
            },
            ScanPhase::Finished => ScanAction::Done,
        }
    }

    /// A scan that begins at the first address.
    pub fn new(budget: u64) -> (r: Scan)
        ensures
            r.valid(),
            r.budget == budget,
            r.addr == 0,
            r.scanned == 0,
            r.phase == ScanPhase::Asking,
            r.tokens@ == Set::<Seq<char>>::empty(),
            r.cookies@ == Set::<Seq<char>>::empty(),
    {
        Scan {
            budget,
            addr: 0,
            scanned: 0,
            phase: ScanPhase::Asking,
            tokens: TextSet::new(),
            cookies: TextSet::new(),
        }
    }

    /// What is to be done next.
    pub fn next(&self) -> (r: ScanAction)
        requires
            self.valid(),
        ensures
            r == self.action(),
    {
        match self.phase {
            ScanPhase::Asking => {
                if self.addr < MAX_ADDRESS && self.budget - self.scanned > 1 {
                    ScanAction::Query { addr: self.addr }
                } else {
                    ScanAction::Done
                }
            },
            ScanPhase::Reading { base, size, off } => {
                let whole: u64 = if size - off < CHUNK {
                    size - off
                } else {
                    CHUNK
                };
                let left: u64 = self.budget - self.scanned;
                let len: u64 = if whole < left {
                    whole
                } else {
                    left
                };
                ScanAction::Read { addr: base.wrapping_add(off), len }
            },
            ScanPhase::Finished => ScanAction::Done,
        }
    }

    fn move_on(&mut self, base: u64, size: u64)
        ensures
            (final(self).phase, final(self).addr) == moved_on(old(self).addr, base, size),
            final(self).budget == old(self).budget,
            final(self).scanned == old(self).scanned,
            final(self).tokens == old(self).tokens,
            final(self).cookies == old(self).cookies,
    {
        let next: u64 = base.wrapping_add(size);
        if next <= self.addr {
            self.phase = ScanPhase::Finished;
        } else {
            self.addr = next;
            self.phase = ScanPhase::Asking;
        }
    }

    /// Takes the answer to a query; none means that it failed.
    pub fn on_region(&mut self, reply: Option<Region>)
        requires
            old(self).valid(),
            old(self).action() is Query,
        ensures
            final(self).valid(),
            (final(self).phase, final(self).addr) == after_region(old(self).addr, reply),
            final(self).budget == old(self).budget,
            final(self).scanned == old(self).scanned,
            final(self).tokens == old(self).tokens,
            final(self).cookies == old(self).cookies,
    {
        match reply {
            None => {
                self.phase = ScanPhase::Finished;
            },
            Some(r) => {
                if readable(r) {
                    self.phase = ScanPhase::Reading { base: r.base, size: r.size, off: 0 };
                } else {
                    self.move_on(r.base, r.size);
                }
            },
        }
    }

    /// Takes the bytes of a read; none means that it failed.
    pub fn on_chunk(&mut self, reply: Option<Vec<u8>>)
        requires
            old(self).valid(),
            old(self).phase is Reading,
            reply matches Some(bytes) ==> bytes@.len() <= old(self).action()->len,
        ensures
            final(self).valid(),
            final(self).budget == old(self).budget,
            ({
                let bytes = counted(
                    match reply {
                        Some(b) => Some(b@),
                        None => None,
                    },
                );
                &&& final(self).scanned == old(self).scanned + bytes.len()
                &&& final(self).tokens@ == old(self).tokens@.union(captured(bytes, TOKEN_PREFIX@))
                &&& final(self).cookies@ == old(self).cookies@.union(captured(bytes, COOKIE_PREFIX@))
            }),
            (final(self).phase, final(self).addr) == after_chunk(
                old(self).addr,
                old(self).phase->base,
                old(self).phase->size,
                old(self).phase->off,
                final(self).has_budget(),
            ),
    {
        if let ScanPhase::Reading { base, size, off } = self.phase {
            proof {
                assert(captured(Seq::<u8>::empty(), TOKEN_PREFIX@) =~= Set::<Seq<char>>::empty());
                assert(captured(Seq::<u8>::empty(), COOKIE_PREFIX@) =~= Set::<Seq<char>>::empty());
                assert(self.tokens@.union(Set::empty()) =~= self.tokens@);
                assert(self.cookies@.union(Set::empty()) =~= self.cookies@);
            }
            let len: u64 = if size - off < CHUNK {
                size - off
            } else {
                CHUNK
            };
            if let Some(bytes) = &reply {
                if bytes.len() > 1 {
                    let tp: [u8; 5] = TOKEN_PREFIX;
                    let cp: [u8; 5] = COOKIE_PREFIX;
                    capture(bytes.as_slice(), tp.as_slice(), &mut self.tokens);
                    capture(bytes.as_slice(), cp.as_slice(), &mut self.cookies);
                    self.scanned = self.scanned + bytes.len() as u64;
                }
            }
            proof {
                let counted_bytes = counted(
                    match reply {
                        Some(b) => Some(b@),
                        None => None,
                    },
                );
                lemma_captured_are(counted_bytes, TOKEN_PREFIX@, old(self).tokens@);
                lemma_captured_are(counted_bytes, COOKIE_PREFIX@, old(self).cookies@);
            }
            let next: u64 = off + len;
            if next < size && self.budget - self.scanned > 1 {
                self.phase = ScanPhase::Reading { base, size, off: next };
            } else {
                self.move_on(base, size);
            }
        }
    }
}

/// How a token begins.
pub const TOKEN_PREFIX: [u8; 5] = [120, 111, 120, 99, 45];

/// How a cookie begins.
pub const COOKIE_PREFIX: [u8; 5] = [120, 111, 120, 100, 45];

/// A scan ends: each answer finishes it, raises the address it asks for, or takes it further into
/// a region.
pub proof fn law_scan_moves_forward(
    addr: u64,
    reply: Option<Region>,
    base: u64,
    size: u64,
    off: u64,
    within_budget: bool,
)
    requires
        off < size,
    ensures
        ({
            let (phase, to) = after_region(addr, reply);
            phase is Finished || (phase is Asking && to > addr) || (phase is Reading && to == addr)
        }),
        ({
            let (phase, to) = after_chunk(addr, base, size, off, within_budget);
            ||| phase is Finished
            ||| phase is Asking && to > addr
            ||| phase matches ScanPhase::Reading { base: b, size: s, off: o } && to == addr && b
                == base && s == size && off < o < size
        }),
{
}

/// A scan keeps within its budget: what is to be read next has, together with what was counted, no
/// more bytes than the budget allows. Nothing is read any more once the budget has less than two
/// bytes left.
pub proof fn law_scan_keeps_within_budget(s: Scan)
    requires
        s.valid(),
    ensures
        s.scanned <= s.budget,
        s.action() matches ScanAction::Read { addr, len } ==> {
            &&& 0 < len <= CHUNK
            &&& s.scanned + 1 < s.budget
            &&& s.scanned + len <= s.budget
        },
        s.budget - s.scanned < 2 ==> s.action() is Done,
{
}

// ---------------------------------------------------------------------------------------------
// The processes of the chat client
// ---------------------------------------------------------------------------------------------
/// A running process.
pub struct ProcessEntry {
    /// The name of its program, which zero characters may follow.
    pub name: String,
    /// Its number.
    pub pid: u32,
}

/// The text in lower case, as Unicode maps it: what `str::to_lowercase` gives.
pub uninterp spec fn lowercase(s: Seq<char>) -> Seq<char>;

/// `str::to_lowercase`: the result depends on the text alone, and has a name here.
#[verifier::external_body]
fn lowercase_text(s: &str) -> (r: String)
    ensures
        r@ == lowercase(s@),
{
    s.to_lowercase()
}

/// The numbers of the processes among these whose names begin with `prefix`, in order.
pub open spec fn pids_beginning(names: Seq<(Seq<char>, u32)>, prefix: Seq<char>) -> Seq<u32>
    decreases names.len(),
{
    if names.len() == 0 {
        Seq::empty()
    } else {
        let rest = pids_beginning(names.drop_last(), prefix);
        if text::begins_with(names.last().0, prefix) {
            rest.push(names.last().1)
        } else {
            rest
        }
    }
}

/// What is seen of a list of processes.
pub open spec fn process_views(v: Seq<ProcessEntry>) -> Seq<(Seq<char>, u32)> {
    Seq::new(v.len(), |i: int| (v[i].name@, v[i].pid))
}

/// The name of a program in lower case, without the zero characters behind it.
pub open spec fn plain_name(s: Seq<char>) -> Seq<char> {
    lowercase(text::strip_back(s, text::Edge::Nul))
}

/// What is seen of a list of processes, with the plain names of their programs.
pub open spec fn plain_views(v: Seq<ProcessEntry>) -> Seq<(Seq<char>, u32)> {
    Seq::new(v.len(), |i: int| (plain_name(v[i].name@), v[i].pid))
}

proof fn lemma_pids(names: Seq<(Seq<char>, u32)>, prefix: Seq<char>, pid: u32)
    ensures
        pids_beginning(names, prefix).contains(pid) <==> exists|i: int|
            0 <= i < names.len() && text::begins_with((#[trigger] names[i]).0, prefix) && names[i].1
                == pid,
    decreases names.len(),
{
    let found = pids_beginning(names, prefix);
    if names.len() > 0 {
        let front = names.drop_last();
        let rest = pids_beginning(front, prefix);
        let last = names.last();
        lemma_pids(front, prefix, pid);
        if found.contains(pid) {
            let k = choose|k: int| 0 <= k < found.len() && found[k] == pid;
            if k < rest.len() {
                assert(rest[k] == pid);
                let i = choose|i: int|
                    0 <= i < front.len() && text::begins_with((#[trigger] front[i]).0, prefix)
                        && front[i].1 == pid;
                assert(names[i] == front[i]);
            } else {
                assert(names[names.len() - 1] == last);
            }
        }
        if exists|i: int|
            0 <= i < names.len() && text::begins_with((#[trigger] names[i]).0, prefix)
                && names[i].1 == pid {
            let i = choose|i: int|
                0 <= i < names.len() && text::begins_with((#[trigger] names[i]).0, prefix)
                    && names[i].1 == pid;
            if i < names.len() - 1 {
                assert(front[i] == names[i]);
                let k = choose|k: int| 0 <= k < rest.len() && rest[k] == pid;
                assert(found[k] == pid);
            } else {
                assert(found[rest.len() as int] == pid);
            }
        }
    }
}

/// The processes that are found are those whose programs have names that begin with the prefix,
/// whatever the case of either.
pub proof fn law_processes_are_found(processes: Seq<ProcessEntry>, prefix: Seq<char>, pid: u32)
    ensures
        pids_beginning(plain_views(processes), lowercase(prefix)).contains(pid) <==> exists|i: int|
            {
                &&& 0 <= i < processes.len()
                &&& text::begins_with(
                    plain_name((#[trigger] processes[i]).name@),
                    lowercase(prefix),
                )
                &&& processes[i].pid == pid
            },
{
    let names = plain_views(processes);
    lemma_pids(names, lowercase(prefix), pid);
    assert forall|i: int| 0 <= i < processes.len() implies #[trigger] names[i] == (
        plain_name(processes[i].name@),
        processes[i].pid,
    ) by {}
    if exists|i: int|
        {
            &&& 0 <= i < processes.len()
            &&& text::begins_with(plain_name((#[trigger] processes[i]).name@), lowercase(prefix))
            &&& processes[i].pid == pid
        } {
        let i = choose|i: int|
            {
                &&& 0 <= i < processes.len()
                &&& text::begins_with(
                    plain_name((#[trigger] processes[i]).name@),
                    lowercase(prefix),
                )
                &&& processes[i].pid == pid
            };
        assert(text::begins_with(names[i].0, lowercase(prefix)));
    }
    if exists|i: int|
        0 <= i < names.len() && text::begins_with((#[trigger] names[i]).0, lowercase(prefix))
            && names[i].1 == pid {
        let i = choose|i: int|
            0 <= i < names.len() && text::begins_with((#[trigger] names[i]).0, lowercase(prefix))
                && names[i].1 == pid;
        assert(text::begins_with(plain_name(processes[i].name@), lowercase(prefix)));
    }
}

/// The numbers of the processes whose names begin with `prefix`, as both are written.
pub fn pids_with_prefix(prefix: &str, processes: &Vec<ProcessEntry>) -> (r: Vec<u32>)
    ensures
        r@ == pids_beginning(process_views(processes@), prefix@),
{
    let mut out: Vec<u32> = Vec::new();
    let mut i: usize = 0;
    let ghost all = process_views(processes@);
    assert(all.take(0) =~= Seq::<(Seq<char>, u32)>::empty());
    while i < processes.len()
        invariant
            i <= processes.len(),
            all == process_views(processes@),
            out@ == pids_beginning(all.take(i as int), prefix@),
        decreases processes.len() - i,
    {
        assert(all.take(i + 1).drop_last() =~= all.take(i as int));
        if text::starts_with(processes[i].name.as_str(), prefix) {
            out.push(processes[i].pid);
        }
        i = i + 1;
    }
    assert(all.take(all.len() as int) =~= all);
    out
}

/// The numbers of the processes whose program names begin with `prefix`, whatever the case.
pub fn pids_by_name(prefix: &str, processes: &Vec<ProcessEntry>) -> (r: Vec<u32>)
    ensures
        r@ == pids_beginning(plain_views(processes@), lowercase(prefix@)),
{
    let wanted: String = lowercase_text(prefix);
    let mut plain: Vec<ProcessEntry> = Vec::new();
    let mut i: usize = 0;
    while i < processes.len()
        invariant
            i <= processes.len(),
            process_views(plain@) == plain_views(processes@).take(i as int),
        decreases processes.len() - i,
    {
        let name: String = text::to_text(
            &text::strip_back_chars(&text::to_chars(processes[i].name.as_str()), text::Edge::Nul),
        );
        let ghost was = plain@;
        plain.push(ProcessEntry { name: lowercase_text(name.as_str()), pid: processes[i].pid });
        proof {
            assert(process_views(was).len() == i);
            assert(process_views(plain@) =~= process_views(was).push(
                plain_views(processes@)[i as int],
            ));
            assert(process_views(plain@) =~= plain_views(processes@).take(i + 1));
        }
        i = i + 1;
    }
    assert(plain_views(processes@).take(processes@.len() as int) =~= plain_views(processes@));
    pids_with_prefix(wanted.as_str(), &plain)
}

/// The union of the first `n` sets of tokens.
pub open spec fn all_tokens(scans: Seq<(TextSet, TextSet)>, n: int) -> Set<Seq<char>>
    decreases n,
{
    if n <= 0 {
        Set::empty()
    } else {
        all_tokens(scans, n - 1).union(scans[n - 1].0@)
    }
}

/// The union of the first `n` sets of cookies.
pub open spec fn all_cookies(scans: Seq<(TextSet, TextSet)>, n: int) -> Set<Seq<char>>
    decreases n,
{
    if n <= 0 {
        Set::empty()
    } else {
        all_cookies(scans, n - 1).union(scans[n - 1].1@)
    }
}

/// What each scan found are credentials: tokens and cookies with their prefixes, long enough.
pub open spec fn found_credentials(scans: Seq<(TextSet, TextSet)>) -> bool {
    forall|i: int|
        0 <= i < scans.len() ==> are_credentials((#[trigger] scans[i]).0@, TOKEN_PREFIX@)
            && are_credentials(scans[i].1@, COOKIE_PREFIX@)
}

proof fn lemma_found_credentials(scans: Seq<(TextSet, TextSet)>, n: int)
    requires
        found_credentials(scans),
        0 <= n <= scans.len(),
    ensures
        are_credentials(all_tokens(scans, n), TOKEN_PREFIX@),
        are_credentials(all_cookies(scans, n), COOKIE_PREFIX@),
    decreases n,
{
    if n > 0 {
        lemma_found_credentials(scans, n - 1);
        assert(are_credentials(scans[n - 1].0@, TOKEN_PREFIX@));
    }
}

/// The tokens and the cookies that were found in any of the processes, each in order and once.
pub fn scan_slack(scans: Vec<(TextSet, TextSet)>) -> (r: (Vec<String>, Vec<String>))
    ensures
        ascending(text::texts(r.0@)),
        ascending(text::texts(r.1@)),
        text::texts(r.0@).to_set() == all_tokens(scans@, scans@.len() as int),
        text::texts(r.1@).to_set() == all_cookies(scans@, scans@.len() as int),
        found_credentials(scans@) ==> {
            &&& forall|i: int|
                0 <= i < r.0@.len() ==> is_credential((#[trigger] r.0@[i])@, TOKEN_PREFIX@)
            &&& forall|i: int|
                0 <= i < r.1@.len() ==> is_credential((#[trigger] r.1@[i])@, COOKIE_PREFIX@)
        },
{
    let mut tokens: TextSet = TextSet::new();
    let mut cookies: TextSet = TextSet::new();
    let mut i: usize = 0;
    while i < scans.len()
        invariant
            i <= scans.len(),
            tokens.valid(),
            cookies.valid(),
            tokens@ == all_tokens(scans@, i as int),
            cookies@ == all_cookies(scans@, i as int),
        decreases scans.len() - i,
    {
        tokens.extend(&scans[i].0);
        cookies.extend(&scans[i].1);
        i = i + 1;
    }
    let r: (Vec<String>, Vec<String>) = (tokens.into_list(), cookies.into_list());
    proof {
        if found_credentials(scans@) {
            lemma_found_credentials(scans@, scans@.len() as int);
            assert forall|i: int| 0 <= i < r.0@.len() implies is_credential(
                (#[trigger] r.0@[i])@,
                TOKEN_PREFIX@,
            ) by {
                assert(text::texts(r.0@)[i] == r.0@[i]@);
                assert(text::texts(r.0@).to_set().contains(r.0@[i]@));
            }
            assert forall|i: int| 0 <= i < r.1@.len() implies is_credential(
                (#[trigger] r.1@[i])@,
                COOKIE_PREFIX@,
            ) by {
                assert(text::texts(r.1@)[i] == r.1@[i]@);
                assert(text::texts(r.1@).to_set().contains(r.1@[i]@));
            }
        }
    }
    r
}

// ---------------------------------------------------------------------------------------------
// What is found, told by bytes and addresses alone
// ---------------------------------------------------------------------------------------------
/// A credential is made of the letters and digits of ASCII and of `-`, `_`, `+`, `/`, `=` and `%`.
/// It has forty characters at least. A token begins with `xoxc-` and a cookie with `xoxd-`.
pub proof fn law_credentials_are_plain(b: u8, bytes: Seq<u8>, i: int)
    ensures
        ({
            let c = b as char;
            is_token_byte(b) <==> {
                ||| 'a' <= c <= 'z'
                ||| 'A' <= c <= 'Z'
                ||| '0' <= c <= '9'
                ||| c == '-' || c == '_' || c == '+' || c == '/' || c == '=' || c == '%'
            }
        }),
        ascii_text(bytes).len() == bytes.len(),
        0 <= i < bytes.len() ==> ascii_text(bytes)[i] as u32 == bytes[i] as u32,
        MIN_CREDENTIAL == 40,
        ascii_text(TOKEN_PREFIX@) == "xoxc-"@,
        ascii_text(COOKIE_PREFIX@) == "xoxd-"@,
{
    reveal_strlit("xoxc-");
    reveal_strlit("xoxd-");
    let t = TOKEN_PREFIX@;
    let d = COOKIE_PREFIX@;
    assert(t[0] == 120 && t[1] == 111 && t[2] == 120 && t[3] == 99 && t[4] == 45);
    assert(d[0] == 120 && d[1] == 111 && d[2] == 120 && d[3] == 100 && d[4] == 45);
    assert(ascii_text(t) =~= "xoxc-"@);
    assert(ascii_text(d) =~= "xoxd-"@);
}

proof fn lemma_run_at_the_front(run: Seq<u8>, back: Seq<u8>, prefix: Seq<u8>)
    requires
        0 < prefix.len() < 40,
        run.len() >= 40,
        run.take(prefix.len() as int) == prefix,
        forall|i: int| 0 <= i < run.len() ==> is_token_byte(#[trigger] run[i]),
        back.len() > 0 ==> !is_token_byte(back[0]),
    ensures
        captured(run + back, prefix).contains(run.map_values(|b: u8| b as char)),
{
    let buf = run + back;
    lemma_run_stops(run, back, 0);
    lemma_run_end(run, 0);
    assert(buf.subrange(0, prefix.len() as int) =~= run.take(prefix.len() as int));
    assert(buf.subrange(0, run.len() as int) =~= run);
    law_credentials_are_captured(buf, prefix, 0);
}

/// A credential that stands in a block is found, whatever stands round it: a run of credential
/// bytes that begins with the prefix and is long enough, at the beginning of the block or behind
/// another byte, at the end of the block or before another byte.
pub proof fn law_credential_in_a_block_is_found(
    x: Seq<u8>,
    z: u8,
    run: Seq<u8>,
    y: u8,
    w: Seq<u8>,
    prefix: Seq<u8>,
)
    requires
        0 < prefix.len() < 40,
        run.len() >= 40,
        run.take(prefix.len() as int) == prefix,
        forall|i: int| 0 <= i < run.len() ==> is_token_byte(#[trigger] run[i]),
        !is_token_byte(z),
        !is_token_byte(y),
    ensures
        ({
            let t = run.map_values(|b: u8| b as char);
            &&& captured(x + seq![z] + (run + (seq![y] + w)), prefix).contains(t)
            &&& captured(x + seq![z] + run, prefix).contains(t)
            &&& captured(run + (seq![y] + w), prefix).contains(t)
            &&& captured(run, prefix).contains(t)
        }),
{
    let none = Seq::<u8>::empty();
    let back = seq![y] + w;
    assert(back[0] == y);
    lemma_run_at_the_front(run, back, prefix);
    lemma_run_at_the_front(run, none, prefix);
    assert(run + none =~= run);
    assert forall|k: int| 0 <= k < prefix.len() implies is_token_byte(#[trigger] prefix[k]) by {
        assert(run.take(prefix.len() as int)[k] == run[k]);
    }
    law_capture_splits(x, z, run + back, prefix, Set::empty());
    law_capture_splits(x, z, run, prefix, Set::empty());
}

/// Whatever is found stands in the block: it is a run of credential bytes there, which begins with
/// the prefix, ends before another byte or with the block, and is long enough.
pub proof fn law_found_credential_stands_in_the_block(buf: Seq<u8>, prefix: Seq<u8>, t: Seq<char>)
    requires
        prefix.len() < 40,
        captured(buf, prefix).contains(t),
    ensures
        exists|x: Seq<u8>, run: Seq<u8>, w: Seq<u8>|
            {
                &&& buf == #[trigger] (x + run + w)
                &&& t == run.map_values(|b: u8| b as char)
                &&& run.len() >= 40
                &&& run.take(prefix.len() as int) == prefix
                &&& forall|i: int| 0 <= i < run.len() ==> is_token_byte(#[trigger] run[i])
                &&& w.len() > 0 ==> !is_token_byte(w[0])
            },
{
    law_captured_are_credentials(buf, prefix, t);
    let i = choose|i: int| is_credential_at(buf, prefix, t, i);
    let j = run_end(buf, i);
    lemma_run_end(buf, i);
    let x = buf.take(i);
    let run = buf.subrange(i, j);
    let w = buf.skip(j);
    assert(buf =~= x + run + w);
    assert(run.take(prefix.len() as int) =~= buf.subrange(i, i + prefix.len()));
}

/// A region is worth reading just where it is committed, private and not empty, can be read, and is
/// not guarded.
pub proof fn law_readable_regions_are_read(r: Region)
    ensures
        !r.committed || !r.private || r.size == 0 ==> !is_readable(r),
        r.protect & 0x100 != 0 ==> !is_readable(r),
        r.protect & 0x02 == 0 && r.protect & 0x04 == 0 ==> !is_readable(r),
        r.committed && r.private && r.size > 0 && r.protect & 0x100 == 0 && r.protect & 0x02 != 0
            ==> is_readable(r),
        r.committed && r.private && r.size > 0 && r.protect & 0x100 == 0 && r.protect & 0x04 != 0
            ==> is_readable(r),
{
}

/// A scan asks for regions one behind the other: behind one that is not read it asks for the next,
/// and it ends where there is none, where the addresses end and where they do not grow. One that
/// is worth reading it reads from its beginning.
pub proof fn law_regions_are_walked(addr: u64, r: Region, s: Scan)
    ensures
        after_region(addr, None) == (ScanPhase::Finished, addr),
        is_readable(r) ==> after_region(addr, Some(r)) == (
            ScanPhase::Reading { base: r.base, size: r.size, off: 0 },
            addr,
        ),
        !is_readable(r) && addr < r.base + r.size <= u64::MAX ==> after_region(addr, Some(r)) == (
            ScanPhase::Asking,
            (r.base + r.size) as u64,
        ),
        !is_readable(r) && r.base + r.size <= addr ==> after_region(addr, Some(r)) == (
            ScanPhase::Finished,
            addr,
        ),
        r.base + r.size > u64::MAX && r.base <= addr && !is_readable(r) ==> after_region(
            addr,
            Some(r),
        ) == (ScanPhase::Finished, addr),
        s.phase is Asking && s.addr < 0x7FFF_FFFF_FFFF && s.scanned + 1 < s.budget ==> s.action()
            == (ScanAction::Query { addr: s.addr }),
        s.phase is Asking && (s.addr >= 0x7FFF_FFFF_FFFF || s.scanned + 1 >= s.budget)
            ==> s.action() is Done,
        s.phase is Finished ==> s.action() is Done,
        SCAN_BUDGET == 250_000_000,
{
}

/// A region is read to its end, chunk by chunk: each read begins where the one before it ended and
/// has four mebibytes, or what is left of the region where that is less, or what is left of the
/// budget where that is less still. Behind the last chunk the scan asks for the next region, and it
/// does so too once the budget is used up.
pub proof fn law_regions_are_read_to_their_end(s: Scan, base: u64, size: u64, off: u64, within: bool)
    requires
        off < size,
        base + size <= u64::MAX,
        s.phase == (ScanPhase::Reading { base, size, off }),
        s.valid(),
    ensures
        s.action() matches ScanAction::Read { addr, len } && addr == base + off && len > 0 && {
            &&& len == 4194304 || len == size - off || len == s.budget - s.scanned
            &&& len <= 4194304 && len <= size - off && len <= s.budget - s.scanned
        },
        size - off > 4194304 && within ==> after_chunk(s.addr, base, size, off, within) == (
            ScanPhase::Reading { base, size, off: (off + 4194304) as u64 },
            s.addr,
        ),
        (size - off <= 4194304 || !within) && base + size > s.addr ==> after_chunk(
            s.addr,
            base,
            size,
            off,
            within,
        ) == (ScanPhase::Asking, (base + size) as u64),
        (size - off <= 4194304 || !within) && base + size <= s.addr ==> after_chunk(
            s.addr,
            base,
            size,
            off,
            within,
        ) == (ScanPhase::Finished, s.addr),
{
}

/// All the bytes of a read count where there are two at least. A read that failed and a single byte
/// count for nothing.
pub proof fn law_bytes_of_a_read_count(bytes: Seq<u8>)
    ensures
        bytes.len() >= 2 ==> counted(Some(bytes)) == bytes,
        bytes.len() < 2 ==> counted(Some(bytes)).len() == 0,
        counted(None).len() == 0,
{
}

/// The processes that are found are all whose names begin with the prefix, in order. To the plain
/// name of a program the zero characters behind it do not belong, and its case does not count.
pub proof fn law_all_processes_are_found(
    names: Seq<(Seq<char>, u32)>,
    prefix: Seq<char>,
    name: Seq<char>,
    zeros: Seq<char>,
)
    requires
        forall|i: int| 0 <= i < zeros.len() ==> #[trigger] zeros[i] == '\0',
        name.len() > 0 && name.last() != '\0',
    ensures
        pids_beginning(names, prefix) == names.filter(
            |p: (Seq<char>, u32)| prefix.len() <= p.0.len() && p.0.take(prefix.len() as int) == prefix,
        ).map_values(|p: (Seq<char>, u32)| p.1),
        plain_name(name + zeros) == lowercase(name),
    decreases names.len(),
{
    reveal(Seq::filter);
    let keep = |p: (Seq<char>, u32)|
        prefix.len() <= p.0.len() && p.0.take(prefix.len() as int) == prefix;
    let number = |p: (Seq<char>, u32)| p.1;
    if names.len() > 0 {
        let front = names.drop_last();
        law_all_processes_are_found(front, prefix, name, zeros);
        let before = front.filter(keep);
        if keep(names.last()) {
            assert(names.filter(keep) =~= before.push(names.last()));
            assert(names.filter(keep).map_values(number) =~= before.map_values(number).push(
                names.last().1,
            ));
        } else {
            assert(names.filter(keep) =~= before);
        }
    } else {
        assert(names.filter(keep).map_values(number) =~= Seq::<u32>::empty());
    }
    lemma_zeros(name, zeros);
}

proof fn lemma_zeros(name: Seq<char>, zeros: Seq<char>)
    requires
        forall|i: int| 0 <= i < zeros.len() ==> #[trigger] zeros[i] == '\0',
        name.len() > 0 && name.last() != '\0',
    ensures
        text::strip_back(name + zeros, text::Edge::Nul) == name,
    decreases zeros.len(),
{
    let s = name + zeros;
    if zeros.len() > 0 {
        assert(s.last() == zeros[zeros.len() - 1]);
        assert(s.drop_last() =~= name + zeros.drop_last());
        lemma_zeros(name, zeros.drop_last());
    } else {
        assert(s =~= name);
    }
}

/// What was found in any of the processes is found, and nothing else.
pub proof fn law_all_scans_count(scans: Seq<(TextSet, TextSet)>, n: int, t: Seq<char>)
    requires
        0 <= n <= scans.len(),
    ensures
        all_tokens(scans, n).contains(t) <==> exists|i: int|
            0 <= i < n && (#[trigger] scans[i]).0@.contains(t),
        all_cookies(scans, n).contains(t) <==> exists|i: int|
            0 <= i < n && (#[trigger] scans[i]).1@.contains(t),
    decreases n,
{
    if n > 0 {
        law_all_scans_count(scans, n - 1, t);
        if scans[n - 1].0@.contains(t) || scans[n - 1].1@.contains(t) {
            assert(0 <= n - 1 < n);
        }
    }
}

/// What is seen of a list of processes is the name and the number of each, in its place.
pub proof fn law_processes_are_seen(v: Seq<ProcessEntry>, i: int)
    ensures
        process_views(v).len() == v.len(),
        plain_views(v).len() == v.len(),
        0 <= i < v.len() ==> process_views(v)[i] == (v[i].name@, v[i].pid),
        0 <= i < v.len() ==> plain_views(v)[i] == (plain_name(v[i].name@), v[i].pid),
{
}

/// Addresses that grow beyond the last one begin again at the first, and a scan goes on there just
/// where that is behind the address that it asked for.
pub proof fn law_addresses_wrap(addr: u64, r: Region, within: bool)
    requires
        r.base + r.size > u64::MAX,
        0 < r.size <= 4194304,
    ensures
        ({
            let next = r.base + r.size - u64::MAX - 1;
            let after = if next > addr {
                (ScanPhase::Asking, next as u64)
            } else {
                (ScanPhase::Finished, addr)
            };
            &&& !is_readable(r) ==> after_region(addr, Some(r)) == after
            &&& after_chunk(addr, r.base, r.size, 0, within) == after
        }),
{
    let sum = r.base + r.size;
    assert(sum % 0x1_0000_0000_0000_0000 == sum - 0x1_0000_0000_0000_0000);
}

} // verus!
