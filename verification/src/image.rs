//! The model image: its index, the names of its entries, the binary plan,
//! the integrity sums and the vocabulary tables.

use crate::bytes::{get32, le32};
use vstd::prelude::*;
use vstd::string::*;

verus! {

/// Bytes of the index at the start of the image.
pub const INDEX_BYTES: usize = 8192;

/// Most entries of an index.
pub const MAX_ENTRIES: usize = 254;

/// "WPLN"
pub const PLAN_MAGIC: u32 = 0x4E4C_5057;

/// An asset is not in the image.
pub const E_NO_ASSET: i32 = -901;

/// The plan is larger than its buffer, or is none.
pub const E_PLAN_SIZE: i32 = -902;

pub const E_PLAN: i32 = -903;

/// A blob is not in the image, or keeps failing its sum.
pub const E_NO_BLOB: i32 = -904;

pub const E_SUM: i32 = -905;

/// A token is not in the kept vocabulary; also a malformed packed blob.
pub const E_TOKEN: i32 = -906;

/// A small read spans more than two blocks.
pub const E_SPAN: i32 = -930;

// --- index --------------------------------------------------------------------------

/// "WSPRIMG1", the first bytes of an image.
pub open spec fn img_magic() -> Seq<u8> {
    seq![0x57, 0x53, 0x50, 0x52, 0x49, 0x4D, 0x47, 0x31]
}

/// The index begins with the image magic.
pub fn has_magic(idx: &[u8]) -> (b: bool)
    requires
        idx@.len() >= 8,
    ensures
        b == (idx@.take(8) == img_magic()),
{
    let b: bool = idx[0] == 0x57 && idx[1] == 0x53 && idx[2] == 0x50 && idx[3] == 0x52 && idx[4]
        == 0x49 && idx[5] == 0x4D && idx[6] == 0x47 && idx[7] == 0x31;
    proof {
        if b {
            assert(idx@.take(8) =~= img_magic());
        } else if idx@.take(8) == img_magic() {
            assert(idx@[0] == idx@.take(8)[0] && idx@[1] == idx@.take(8)[1]);
            assert(idx@[2] == idx@.take(8)[2] && idx@[3] == idx@.take(8)[3]);
            assert(idx@[4] == idx@.take(8)[4] && idx@[5] == idx@.take(8)[5]);
            assert(idx@[6] == idx@.take(8)[6] && idx@[7] == idx@.take(8)[7]);
        }
    }
    b
}

/// Where an entry's bytes are.
#[derive(Clone, Copy, PartialEq, Eq, Structural, Debug)]
pub struct Entry {
    pub lba: u32,
    pub len: u32,
}

impl Default for Entry {
    fn default() -> (e: Self)
        ensures
            e == (Entry { lba: 0, len: 0 }),
    {
        Entry { lba: 0, len: 0 }
    }
}

/// Length of the NUL-padded name in the 24 bytes from `o` on, counted from
/// byte `k`.
pub open spec fn name_len(idx: Seq<u8>, o: int, k: int) -> int
    decreases 24 - k,
{
    if k >= 24 || idx[o + k] == 0 {
        k
    } else {
        name_len(idx, o, k + 1)
    }
}

/// The name of entry `i`.
pub open spec fn entry_name(idx: Seq<u8>, i: int) -> Seq<u8> {
    idx.subrange(16 + 32 * i, 16 + 32 * i + name_len(idx, 16 + 32 * i, 0))
}

/// The location of entry `i`.
pub open spec fn entry_at(idx: Seq<u8>, i: int) -> Entry {
    Entry { lba: le32(idx, 16 + 32 * i + 24) as u32, len: le32(idx, 16 + 32 * i + 28) as u32 }
}

/// Entries of an index: the count it records, up to what fits.
pub open spec fn entry_count(idx: Seq<u8>) -> int {
    if le32(idx, 12) < MAX_ENTRIES {
        le32(idx, 12)
    } else {
        MAX_ENTRIES as int
    }
}

/// The place of the first entry with this name, from entry `i` on.
pub open spec fn find_from(idx: Seq<u8>, name: Seq<u8>, i: int) -> Option<int>
    decreases entry_count(idx) - i,
{
    if i >= entry_count(idx) {
        None
    } else if entry_name(idx, i) == name {
        Some(i)
    } else {
        find_from(idx, name, i + 1)
    }
}

/// What a lookup finds: the first entry with this name, and its place.
pub open spec fn found(idx: Seq<u8>, name: Seq<u8>) -> Option<(Entry, usize)> {
    match find_from(idx, name, 0) {
        Some(i) => Some((entry_at(idx, i), i as usize)),
        None => None,
    }
}

/// A lookup finds the first match, and finds nothing only if there is
/// none.
pub proof fn law_lookup_finds_the_first(idx: Seq<u8>, name: Seq<u8>, i: int)
    requires
        0 <= i,
    ensures
        match find_from(idx, name, i) {
            Some(k) => {
                &&& i <= k < entry_count(idx)
                &&& entry_name(idx, k) == name
                &&& forall|j: int| i <= j < k ==> #[trigger] entry_name(idx, j) != name
            },
            None => forall|j: int|
                i <= j < entry_count(idx) ==> #[trigger] entry_name(idx, j) != name,
        },
    decreases entry_count(idx) - i,
{
    if i < entry_count(idx) && entry_name(idx, i) != name {
        law_lookup_finds_the_first(idx, name, i + 1);
    }
}

proof fn lemma_name_len(idx: Seq<u8>, o: int, k: int)
    requires
        0 <= k <= 24,
    ensures
        k <= name_len(idx, o, k) <= 24,
    decreases 24 - k,
{
    if k < 24 && idx[o + k] != 0 {
        lemma_name_len(idx, o, k + 1);
    }
}

/// The name in the 24 bytes from `o` on is `name`.
fn name_is(idx: &[u8], o: usize, name: &[u8]) -> (b: bool)
    requires
        o + 24 <= idx@.len(),
    ensures
        b == (idx@.subrange(o as int, o + name_len(idx@, o as int, 0)) == name@),
{
    let total: usize = idx.len();
    let mut n: usize = 0;
    while n < 24 && idx[o + n] != 0
        invariant
            n <= 24,
            total == idx@.len(),
            o + 24 <= total,
            name_len(idx@, o as int, 0) == name_len(idx@, o as int, n as int),
        decreases 24 - n,
    {
        n = n + 1;
    }
    assert(n == name_len(idx@, o as int, 0));
    let ghost have = idx@.subrange(o as int, o + n);
    if n != name.len() {
        assert(have.len() != name@.len());
        return false;
    }
    let mut k: usize = 0;
    while k < n
        invariant
            k <= n <= 24,
            n == name@.len(),
            n == name_len(idx@, o as int, 0),
            total == idx@.len(),
            o + 24 <= total,
            have == idx@.subrange(o as int, o + n),
            forall|j: int| 0 <= j < k ==> have[j] == name@[j],
        decreases n - k,
    {
        if idx[o + k] != name[k] {
            assert(have[k as int] != name@[k as int]);
            return false;
        }
        k = k + 1;
    }
    assert(have =~= name@);
    true
}

/// Finds an entry by name; also returns its place, the key to the sums.
pub fn lookup_idx(idx: &[u8], name: &[u8]) -> (r: Option<(Entry, usize)>)
    requires
        idx@.len() == INDEX_BYTES,
    ensures
        r == found(idx@, name@),
{
    let recorded: u32 = get32(idx, 12);
    let count: usize = if recorded < 254 {
        recorded as usize
    } else {
        254
    };
    let mut i: usize = 0;
    while i < count
        invariant
            i <= count <= 254,
            count == entry_count(idx@),
            idx@.len() == INDEX_BYTES,
            find_from(idx@, name@, 0) == find_from(idx@, name@, i as int),
        decreases count - i,
    {
        let o: usize = 16 + 32 * i;
        if name_is(idx, o, name) {
            return Some((Entry { lba: get32(idx, o + 24), len: get32(idx, o + 28) }, i));
        }
        i = i + 1;
    }
    None
}

/// Finds an entry by name.
pub fn lookup(idx: &[u8], name: &[u8]) -> (r: Option<Entry>)
    requires
        idx@.len() == INDEX_BYTES,
    ensures
        r == match found(idx@, name@) {
            Some((e, _)) => Some(e),
            None => None::<Entry>,
        },
{
    match lookup_idx(idx, name) {
        Some((e, _)) => Some(e),
        None => None,
    }
}

/// Blocks that hold `len` bytes.
pub open spec fn blocks_of(len: int) -> int {
    (len + 511) / 512
}

/// Blocks of an entry.
pub fn entry_blocks(e: Entry) -> (n: u32)
    ensures
        n == blocks_of(e.len as int),
{
    if e.len % 512 == 0 {
        e.len / 512
    } else {
        e.len / 512 + 1
    }
}

// --- sums ---------------------------------------------------------------------------

/// Places in the table of sums.
pub const SUMS_MAX: usize = 256;

/// Bytes of the buffer that the sums are read through.
pub const SUMS_BYTES: usize = 1024;

/// How many blocks of the sums to read: none if they do not fit.
pub fn sums_blocks(e: Entry) -> (r: Option<u32>)
    ensures
        e.len <= SUMS_BYTES ==> r == Some(blocks_of(e.len as int) as u32),
        e.len > SUMS_BYTES ==> r is None,
{
    if e.len as usize <= SUMS_BYTES {
        Some(entry_blocks(e))
    } else {
        None
    }
}

/// Takes the per-entry byte sums over from what was read; places that the
/// image has no sum for keep what they have.
pub fn load_sums(e: Entry, buf: &[u8], sums: &mut [u32; SUMS_MAX])
    requires
        e.len <= SUMS_BYTES,
        buf@.len() >= SUMS_BYTES,
    ensures
        forall|i: int|
            0 <= i < e.len / 4 ==> #[trigger] final(sums)@[i] == le32(buf@, 4 * i),
        forall|i: int|
            e.len / 4 <= i < SUMS_MAX ==> #[trigger] final(sums)@[i] == old(sums)@[i],
{
    let ghost start = sums@;
    let n: usize = e.len as usize / 4;
    let mut i: usize = 0;
    while i < n
        invariant
            i <= n <= 256,
            buf@.len() >= SUMS_BYTES,
            forall|k: int| 0 <= k < i ==> #[trigger] sums@[k] == le32(buf@, 4 * k),
            forall|k: int| i <= k < SUMS_MAX ==> #[trigger] sums@[k] == start[k],
        decreases n - i,
    {
        sums[i] = get32(buf, 4 * i);
        i = i + 1;
    }
}

// --- names --------------------------------------------------------------------------

/// The parts of a name, one after another.
pub open spec fn joined(parts: Seq<&str>) -> Seq<u8>
    decreases parts.len(),
{
    if parts.len() == 0 {
        Seq::empty()
    } else {
        joined(parts.drop_last()) + parts.last().spec_bytes()
    }
}

/// Longest name that can be put together.
pub const NAME_MAX: usize = 23;

/// A name put together from parts.
pub struct Name {
    pub buf: Vec<u8>,
}

impl Name {
    pub open spec fn view(&self) -> Seq<u8> {
        self.buf@
    }

    /// Puts a name together.
    pub fn of(parts: &[&str]) -> (n: Name)
        requires
            joined(parts@).len() <= NAME_MAX,
        ensures
            n@ == joined(parts@),
    {
        let mut buf: Vec<u8> = Vec::new();
        let mut i: usize = 0;
        while i < parts.len()
            invariant
                i <= parts@.len(),
                buf@ == joined(parts@.take(i as int)),
            decreases parts@.len() - i,
        {
            let b: &[u8] = parts[i].as_bytes();
            let ghost before = buf@;
            buf.extend_from_slice(b);
            assert(buf@ =~= before + b@);
            assert(parts@.take(i + 1).drop_last() =~= parts@.take(i as int));
            i = i + 1;
        }
        assert(parts@.take(i as int) =~= parts@);
        Name { buf }
    }

    /// The bytes of the name.
    pub fn s(&self) -> (b: &[u8])
        ensures
            b@ == self@,
    {
        self.buf.as_slice()
    }
}

/// The layers of a transformer block that run on the NPU.
#[derive(Clone, Copy, PartialEq, Eq, Structural, Debug)]
pub enum Kind {
    Q,
    K,
    V,
    Out,
    Xq,
    Xk,
    Xv,
    Xout,
    Fc1,
    Fc2p,
}

/// How a layer is spelt in a name.
pub open spec fn kind_name(k: Kind) -> &'static str {
    match k {
        Kind::Q => "q",
        Kind::K => "k",
        Kind::V => "v",
        Kind::Out => "out",
        Kind::Xq => "xq",
        Kind::Xk => "xk",
        Kind::Xv => "xv",
        Kind::Xout => "xout",
        Kind::Fc1 => "fc1",
        Kind::Fc2p => "fc2p",
    }
}

pub open spec fn digit_name(i: int) -> &'static str {
    if i == 0 {
        "0"
    } else if i == 1 {
        "1"
    } else if i == 2 {
        "2"
    } else {
        "3"
    }
}

pub open spec fn part_name(i: int) -> &'static str {
    if i == 0 {
        "a"
    } else if i == 1 {
        "b"
    } else if i == 2 {
        "c"
    } else {
        "d"
    }
}

fn kind_str(k: Kind) -> (s: &'static str)
    ensures
        s == kind_name(k),
{
    match k {
        Kind::Q => "q",
        Kind::K => "k",
        Kind::V => "v",
        Kind::Out => "out",
        Kind::Xq => "xq",
        Kind::Xk => "xk",
        Kind::Xv => "xv",
        Kind::Xout => "xout",
        Kind::Fc1 => "fc1",
        Kind::Fc2p => "fc2p",
    }
}

pub(crate) fn digit_str(i: usize) -> (s: &'static str)
    requires
        i < 4,
    ensures
        s == digit_name(i as int),
{
    if i == 0 {
        "0"
    } else if i == 1 {
        "1"
    } else if i == 2 {
        "2"
    } else {
        "3"
    }
}

pub(crate) fn part_str(i: usize) -> (s: &'static str)
    requires
        i < 4,
    ensures
        s == part_name(i as int),
{
    if i == 0 {
        "a"
    } else if i == 1 {
        "b"
    } else if i == 2 {
        "c"
    } else {
        "d"
    }
}

/// The parts of an encoder blob's name. The first block's layers were
/// named before there were others, and keep those names.
pub open spec fn enc_parts(l: int, kind: Kind, sub: int) -> Seq<&'static str> {
    if l == 0 && kind == Kind::Q {
        seq!["wq0"]
    } else if l == 0 && kind == Kind::K {
        seq!["wk0"]
    } else if l == 0 && kind == Kind::V {
        seq!["wv0"]
    } else if l == 0 && kind == Kind::Out {
        seq!["wout0"]
    } else if l == 0 && kind == Kind::Fc1 {
        seq!["wfc1", part_name(sub)]
    } else if l == 0 && kind == Kind::Fc2p {
        seq!["wfc2p", digit_name(sub)]
    } else if kind == Kind::Fc1 {
        seq!["w", digit_name(l), "fc1", part_name(sub)]
    } else if kind == Kind::Fc2p {
        seq!["w", digit_name(l), "fc2p", digit_name(sub)]
    } else {
        seq!["w", digit_name(l), kind_name(kind)]
    }
}

/// The parts of a decoder blob's name.
pub open spec fn dec_parts(l: int, kind: Kind, sub: int) -> Seq<&'static str> {
    if kind == Kind::Fc1 {
        seq!["d", digit_name(l), "fc1", part_name(sub)]
    } else if kind == Kind::Fc2p {
        seq!["d", digit_name(l), "fc2p", digit_name(sub)]
    } else {
        seq!["d", digit_name(l), kind_name(kind)]
    }
}

proof fn lemma_literals()
    ensures
        "wq0".spec_bytes().len() == 3,
        "wk0".spec_bytes().len() == 3,
        "wv0".spec_bytes().len() == 3,
        "wout0".spec_bytes().len() == 5,
        "wfc1".spec_bytes().len() == 4,
        "wfc2p".spec_bytes().len() == 5,
        "w".spec_bytes().len() == 1,
        "d".spec_bytes().len() == 1,
        forall|k: Kind| (#[trigger] kind_name(k)).spec_bytes().len() <= 4,
        forall|i: int| (#[trigger] digit_name(i)).spec_bytes().len() == 1,
        forall|i: int| (#[trigger] part_name(i)).spec_bytes().len() == 1,
        "fc1".spec_bytes().len() == 3,
        "fc2p".spec_bytes().len() == 4,
{
    broadcast use is_ascii_spec_bytes;

    reveal_strlit("wq0");
    reveal_strlit("wk0");
    reveal_strlit("wv0");
    reveal_strlit("wout0");
    reveal_strlit("wfc1");
    reveal_strlit("wfc2p");
    reveal_strlit("w");
    reveal_strlit("d");
    reveal_strlit("q");
    reveal_strlit("k");
    reveal_strlit("v");
    reveal_strlit("out");
    reveal_strlit("xq");
    reveal_strlit("xk");
    reveal_strlit("xv");
    reveal_strlit("xout");
    reveal_strlit("fc1");
    reveal_strlit("fc2p");
    reveal_strlit("0");
    reveal_strlit("1");
    reveal_strlit("2");
    reveal_strlit("3");
    reveal_strlit("a");
    reveal_strlit("b");
    reveal_strlit("c");
    assert(is_ascii("wq0") && is_ascii("wk0") && is_ascii("wv0") && is_ascii("wout0"));
    assert(is_ascii("wfc1") && is_ascii("wfc2p") && is_ascii("w") && is_ascii("d"));
    assert(is_ascii("q") && is_ascii("k") && is_ascii("v") && is_ascii("out"));
    assert(is_ascii("xq") && is_ascii("xk") && is_ascii("xv") && is_ascii("xout"));
    assert(is_ascii("fc1") && is_ascii("fc2p"));
    assert(is_ascii("0") && is_ascii("1") && is_ascii("2") && is_ascii("3"));
    assert(is_ascii("a") && is_ascii("b") && is_ascii("c"));
}

pub(crate) proof fn lemma_joined(parts: Seq<&str>)
    ensures
        parts.len() == 0 ==> joined(parts) == Seq::<u8>::empty(),
        parts.len() == 1 ==> joined(parts) == parts[0].spec_bytes(),
        parts.len() == 2 ==> joined(parts) == parts[0].spec_bytes() + parts[1].spec_bytes(),
        parts.len() == 3 ==> joined(parts) == parts[0].spec_bytes() + parts[1].spec_bytes()
            + parts[2].spec_bytes(),
        parts.len() == 4 ==> joined(parts) == parts[0].spec_bytes() + parts[1].spec_bytes()
            + parts[2].spec_bytes() + parts[3].spec_bytes(),
        parts.len() == 5 ==> joined(parts) == parts[0].spec_bytes() + parts[1].spec_bytes()
            + parts[2].spec_bytes() + parts[3].spec_bytes() + parts[4].spec_bytes(),
    decreases parts.len(),
{
    if 1 <= parts.len() <= 5 {
        lemma_joined(parts.drop_last());
        if parts.len() == 1 {
            assert(joined(parts) =~= parts[0].spec_bytes());
        }
    }
}

/// Digits and part letters are single bytes.
pub(crate) proof fn lemma_digits()
    ensures
        forall|i: int| (#[trigger] digit_name(i)).spec_bytes().len() == 1,
        forall|i: int| (#[trigger] part_name(i)).spec_bytes().len() == 1,
{
    lemma_literals();
}

/// Name of an encoder blob.
pub fn enc_blob(l: usize, kind: Kind, sub: usize) -> (n: Name)
    requires
        l < 4,
        sub < 4,
    ensures
        n@ == joined(enc_parts(l as int, kind, sub as int)),
{
    proof {
        lemma_literals();
        lemma_joined(enc_parts(l as int, kind, sub as int));
    }
    let ghost want = enc_parts(l as int, kind, sub as int);
    if l == 0 && kind == Kind::Q {
        let p: [&str; 1] = ["wq0"];
        assert(p@ =~= want);
        Name::of(p.as_slice())
    } else if l == 0 && kind == Kind::K {
        let p: [&str; 1] = ["wk0"];
        assert(p@ =~= want);
        Name::of(p.as_slice())
    } else if l == 0 && kind == Kind::V {
        let p: [&str; 1] = ["wv0"];
        assert(p@ =~= want);
        Name::of(p.as_slice())
    } else if l == 0 && kind == Kind::Out {
        let p: [&str; 1] = ["wout0"];
        assert(p@ =~= want);
        Name::of(p.as_slice())
    } else if l == 0 && kind == Kind::Fc1 {
        let p: [&str; 2] = ["wfc1", part_str(sub)];
        assert(p@ =~= want);
        Name::of(p.as_slice())
    } else if l == 0 && kind == Kind::Fc2p {
        let p: [&str; 2] = ["wfc2p", digit_str(sub)];
        assert(p@ =~= want);
        Name::of(p.as_slice())
    } else if kind == Kind::Fc1 {
        let p: [&str; 4] = ["w", digit_str(l), "fc1", part_str(sub)];
        assert(p@ =~= want);
        Name::of(p.as_slice())
    } else if kind == Kind::Fc2p {
        let p: [&str; 4] = ["w", digit_str(l), "fc2p", digit_str(sub)];
        assert(p@ =~= want);
        Name::of(p.as_slice())
    } else {
        let p: [&str; 3] = ["w", digit_str(l), kind_str(kind)];
        assert(p@ =~= want);
        Name::of(p.as_slice())
    }
}

/// Name of a decoder blob.
pub fn dec_blob(l: usize, kind: Kind, sub: usize) -> (n: Name)
    requires
        l < 4,
        sub < 4,
    ensures
        n@ == joined(dec_parts(l as int, kind, sub as int)),
{
    proof {
        lemma_literals();
        lemma_joined(dec_parts(l as int, kind, sub as int));
    }
    let ghost want = dec_parts(l as int, kind, sub as int);
    if kind == Kind::Fc1 {
        let p: [&str; 4] = ["d", digit_str(l), "fc1", part_str(sub)];
        assert(p@ =~= want);
        Name::of(p.as_slice())
    } else if kind == Kind::Fc2p {
        let p: [&str; 4] = ["d", digit_str(l), "fc2p", digit_str(sub)];
        assert(p@ =~= want);
        Name::of(p.as_slice())
    } else {
        let p: [&str; 3] = ["d", digit_str(l), kind_str(kind)];
        assert(p@ =~= want);
        Name::of(p.as_slice())
    }
}

/// Whole blocks hold the bytes, and one block less does not.
pub proof fn law_blocks_hold_the_bytes(len: int)
    requires
        len >= 0,
    ensures
        512 * blocks_of(len) >= len,
        len > 0 ==> 512 * (blocks_of(len) - 1) < len,
        len == 0 ==> blocks_of(len) == 0,
{
}

/// Bytes of entry `i` of an index: its name padded with zeros, its first
/// block and its length.
pub open spec fn entry_bytes_are(idx: Seq<u8>, i: int, name: Seq<u8>, lba: u32, len: u32) -> bool {
    let o = 16 + 32 * i;
    &&& forall|k: int|
        0 <= k < 24 ==> #[trigger] idx[o + k] == (if k < name.len() {
            name[k]
        } else {
            0
        })
    &&& idx[o + 24] + 256 * idx[o + 25] + 65536 * idx[o + 26] + 16777216 * idx[o + 27] == lba
    &&& idx[o + 28] + 256 * idx[o + 29] + 65536 * idx[o + 30] + 16777216 * idx[o + 31] == len
}

/// A name that fits an entry.
pub open spec fn is_entry_name(name: Seq<u8>) -> bool {
    name.len() <= 24 && forall|k: int| 0 <= k < name.len() ==> #[trigger] name[k] != 0
}

proof fn lemma_padded_name(idx: Seq<u8>, o: int, name: Seq<u8>, k: int)
    requires
        is_entry_name(name),
        0 <= k <= name.len(),
        forall|j: int|
            0 <= j < 24 ==> #[trigger] idx[o + j] == (if j < name.len() {
                name[j]
            } else {
                0
            }),
    ensures
        name_len(idx, o, k) == name.len(),
    decreases name.len() - k,
{
    if k < name.len() {
        assert(idx[o + k] == name[k]);
        lemma_padded_name(idx, o, name, k + 1);
    } else if k < 24 {
        assert(idx[o + k] == 0);
    }
}

proof fn lemma_find_from(
    idx: Seq<u8>,
    names: Seq<Seq<u8>>,
    i: int,
    at: int,
)
    requires
        0 <= at <= i < names.len(),
        entry_count(idx) == names.len(),
        forall|j: int| 0 <= j < names.len() ==> entry_name(idx, j) == #[trigger] names[j],
        forall|j: int| 0 <= j < i ==> #[trigger] names[j] != names[i],
    ensures
        find_from(idx, names[i], at) == Some(i),
    decreases i - at,
{
    assert(entry_name(idx, at) == names[at]);
    if at < i {
        assert(names[at] != names[i]);
        lemma_find_from(idx, names, i, at + 1);
    }
}

/// What is put into an index is found in it: every name gives its own first
/// block and length.
pub proof fn law_what_is_indexed_is_found(
    idx: Seq<u8>,
    names: Seq<Seq<u8>>,
    lbas: Seq<u32>,
    lens: Seq<u32>,
    i: int,
)
    requires
        names.len() == lbas.len() == lens.len(),
        names.len() <= 254,
        idx.len() >= 16 + 32 * names.len(),
        idx[12] + 256 * idx[13] + 65536 * idx[14] + 16777216 * idx[15] == names.len(),
        forall|j: int|
            0 <= j < names.len() ==> is_entry_name(#[trigger] names[j]) && entry_bytes_are(
                idx,
                j,
                names[j],
                lbas[j],
                lens[j],
            ),
        forall|j: int, k: int|
            0 <= j < k < names.len() ==> #[trigger] names[j] != #[trigger] names[k],
        0 <= i < names.len(),
    ensures
        found(idx, names[i]) == Some((Entry { lba: lbas[i], len: lens[i] }, i as usize)),
{
    assert forall|j: int| 0 <= j < names.len() implies entry_name(idx, j)
        == #[trigger] names[j] by {
        let o = 16 + 32 * j;
        assert(entry_bytes_are(idx, j, names[j], lbas[j], lens[j]));
        lemma_padded_name(idx, o, names[j], 0);
        assert(entry_name(idx, j) =~= names[j]) by {
            assert forall|k: int| 0 <= k < names[j].len() implies entry_name(idx, j)[k]
                == names[j][k] by {
                assert(idx[o + k] == names[j][k]);
            }
        }
    }
    assert(entry_bytes_are(idx, i, names[i], lbas[i], lens[i]));
    lemma_find_from(idx, names, i, 0);
}

} // verus!
