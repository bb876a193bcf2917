//! Directory listings: relative paths of entries and their order (directories
//! first, then by name, as `str` orders names: by their UTF-8 bytes).
use vstd::prelude::*;
use vstd::utf8::encode_utf8;
use crate::text::{trim_end_char, trim_end_matches_char};

verus! {

/// One entry of a directory as read from disk.
pub struct DirEntryInfo {
    pub name: String,
    pub is_dir: bool,
    pub size: u64,
}

/// One entry of a directory listing as sent to a browser.
pub struct EntryDto {
    pub name: String,
    pub path: String,
    pub is_dir: bool,
    pub size: u64,
}

/// Mathematical value of a listing entry.
pub struct EntryView {
    pub name: Seq<char>,
    pub path: Seq<char>,
    pub is_dir: bool,
    pub size: u64,
}

impl View for EntryDto {
    type V = EntryView;

    open spec fn view(&self) -> EntryView {
        EntryView { name: self.name@, path: self.path@, is_dir: self.is_dir, size: self.size }
    }
}

/// Strict lexicographic order on byte strings (a proper prefix comes first).
pub open spec fn bytes_lt(a: Seq<u8>, b: Seq<u8>) -> bool
    decreases a.len(),
{
    if a.len() == 0 {
        b.len() > 0
    } else if b.len() == 0 {
        false
    } else if a[0] != b[0] {
        a[0] < b[0]
    } else {
        bytes_lt(a.drop_first(), b.drop_first())
    }
}

/// The order of `str`: lexicographic on the UTF-8 encodings.
pub open spec fn name_lt(a: Seq<char>, b: Seq<char>) -> bool {
    bytes_lt(encode_utf8(a), encode_utf8(b))
}

/// `x` is listed strictly before `y`: directories first, then by name.
pub open spec fn listed_before(x: EntryView, y: EntryView) -> bool {
    (x.is_dir && !y.is_dir) || (x.is_dir == y.is_dir && name_lt(x.name, y.name))
}

/// Neither entry goes before the other.
pub open spec fn same_rank(x: EntryView, y: EntryView) -> bool {
    !listed_before(x, y) && !listed_before(y, x)
}

/// No entry is listed before one that precedes it.
pub open spec fn sorted_listing(s: Seq<EntryView>) -> bool {
    forall|i: int, j: int| 0 <= i < j < s.len() ==> !listed_before(#[trigger] s[j], #[trigger] s[i])
}

/// `r` is `input` rearranged by the index map `perm`, and entries of the same
/// rank keep their relative order.
pub open spec fn stable_arrangement(r: Seq<EntryView>, input: Seq<EntryView>, perm: Seq<int>) -> bool {
    &&& r.len() == input.len()
    &&& perm.len() == r.len()
    &&& forall|k: int| 0 <= k < r.len() ==> 0 <= #[trigger] perm[k] < input.len() && r[k] == input[perm[k]]
    &&& forall|k1: int, k2: int| 0 <= k1 < k2 < r.len() ==> #[trigger] perm[k1] != #[trigger] perm[k2]
    &&& forall|k1: int, k2: int|
        0 <= k1 < k2 < r.len() && same_rank(#[trigger] r[k1], #[trigger] r[k2]) ==> perm[k1] < perm[k2]
}

/// `r` is the stable sort of `input` by `listed_before`.
pub open spec fn stably_sorted(r: Seq<EntryView>, input: Seq<EntryView>) -> bool {
    &&& sorted_listing(r)
    &&& exists|perm: Seq<int>| stable_arrangement(r, input, perm)
}

/// Path of an entry called `name` in the directory `dir` (relative to the shared root).
pub open spec fn entry_path(dir: Seq<char>, name: Seq<char>) -> Seq<char> {
    if dir.len() == 0 {
        name
    } else {
        trim_end_char(dir, '/') + seq!['/'] + name
    }
}

proof fn lemma_trim_end_slashes(s: Seq<char>)
    ensures
        trim_end_char(s, '/').len() <= s.len(),
        trim_end_char(s, '/') == s.subrange(0, trim_end_char(s, '/').len() as int),
        forall|j: int| trim_end_char(s, '/').len() <= j < s.len() ==> s[j] == '/',
        trim_end_char(s, '/').len() == 0 || trim_end_char(s, '/').last() != '/',
    decreases s.len(),
{
    if s.len() > 0 && s.last() == '/' {
        let t = s.drop_last();
        lemma_trim_end_slashes(t);
        let k = trim_end_char(t, '/').len() as int;
        assert(t.subrange(0, k) =~= s.subrange(0, k));
        assert forall|j: int| k <= j < s.len() implies s[j] == '/' by {
            if j < t.len() {
                assert(t[j] == s[j]);
            }
        }
    } else {
        assert(s.subrange(0, s.len() as int) =~= s);
    }
}

/// An entry of a sub-directory is reached through it: its path is the
/// directory with its trailing `/`s taken off, one `/`, and the entry's name;
/// in the shared folder's top (the empty directory) it is the name alone.
pub proof fn law_entry_path_is_below_its_directory(dir: Seq<char>, name: Seq<char>)
    ensures
        dir.len() == 0 ==> entry_path(dir, name) == name,
        dir.len() > 0 ==> exists|k: int|
            0 <= k <= dir.len() && entry_path(dir, name) == #[trigger] dir.subrange(0, k) + seq!['/']
                + name && (forall|j: int| k <= j < dir.len() ==> dir[j] == '/') && (k == 0 || dir[k
                - 1] != '/'),
{
    if dir.len() > 0 {
        lemma_trim_end_slashes(dir);
        let k = trim_end_char(dir, '/').len() as int;
        if k > 0 {
            assert(dir[k - 1] == trim_end_char(dir, '/').last());
        }
        assert(entry_path(dir, name) == dir.subrange(0, k) + seq!['/'] + name);
    }
}

/// The entry that `e`, read in directory `dir`, becomes in a listing.
pub open spec fn entry_of(dir: Seq<char>, e: DirEntryInfo) -> EntryView {
    EntryView { name: e.name@, path: entry_path(dir, e.name@), is_dir: e.is_dir, size: e.size }
}

/// The entries of `raw`, in the order read.
pub open spec fn entries_of(dir: Seq<char>, raw: Seq<DirEntryInfo>) -> Seq<EntryView> {
    Seq::new(raw.len(), |i: int| entry_of(dir, raw[i]))
}

/// The values of a list of entries.
pub open spec fn entry_views(s: Seq<EntryDto>) -> Seq<EntryView> {
    s.map_values(|e: EntryDto| e@)
}

/// No byte string comes before itself.
pub proof fn lemma_bytes_lt_irreflexive(a: Seq<u8>)
    ensures
        !bytes_lt(a, a),
    decreases a.len(),
{
    if a.len() > 0 {
        lemma_bytes_lt_irreflexive(a.drop_first());
    }
}

/// The byte order is transitive.
pub proof fn lemma_bytes_lt_transitive(a: Seq<u8>, b: Seq<u8>, c: Seq<u8>)
    requires
        bytes_lt(a, b),
        bytes_lt(b, c),
    ensures
        bytes_lt(a, c),
    decreases a.len(),
{
    if a.len() > 0 && b.len() > 0 && c.len() > 0 && a[0] == b[0] && b[0] == c[0] {
        lemma_bytes_lt_transitive(a.drop_first(), b.drop_first(), c.drop_first());
    }
}

/// Of two different byte strings, one comes first.
pub proof fn lemma_bytes_lt_total(a: Seq<u8>, b: Seq<u8>)
    ensures
        a == b || bytes_lt(a, b) || bytes_lt(b, a),
    decreases a.len(),
{
    if a.len() > 0 && b.len() > 0 && a[0] == b[0] {
        lemma_bytes_lt_total(a.drop_first(), b.drop_first());
        if a.drop_first() == b.drop_first() {
            assert(a =~= seq![a[0]] + a.drop_first());
            assert(b =~= seq![b[0]] + b.drop_first());
        }
    } else if a.len() == 0 && b.len() == 0 {
        assert(a =~= b);
    }
}

/// `listed_before` is a strict weak order.
pub proof fn lemma_listed_before_order(x: EntryView, y: EntryView, z: EntryView)
    ensures
        !listed_before(x, x),
        listed_before(x, y) && listed_before(y, z) ==> listed_before(x, z),
        listed_before(x, y) ==> listed_before(x, z) || listed_before(z, y),
{
    let bx = encode_utf8(x.name);
    let by = encode_utf8(y.name);
    let bz = encode_utf8(z.name);
    lemma_bytes_lt_irreflexive(bx);
    lemma_bytes_lt_total(bz, by);
    if bytes_lt(bx, by) && bytes_lt(by, bz) {
        lemma_bytes_lt_transitive(bx, by, bz);
    }
}

/// In a sorted listing every directory comes before every file.
pub proof fn law_directories_first(s: Seq<EntryView>, i: int, j: int)
    requires
        sorted_listing(s),
        0 <= i < j < s.len(),
        s[j].is_dir,
    ensures
        s[i].is_dir,
{
    assert(!listed_before(s[j], s[i]));
}

/// A listing holds every entry read, and nothing else, once per reading.
pub proof fn law_listing_is_a_rearrangement(r: Seq<EntryView>, input: Seq<EntryView>, k: int)
    requires
        stably_sorted(r, input),
        0 <= k < input.len(),
    ensures
        r.len() == input.len(),
        exists|m: int| 0 <= m < r.len() && r[m] == input[k],
{
    let perm = choose|perm: Seq<int>| stable_arrangement(r, input, perm);
    lemma_perm_onto(perm, r.len() as int, k);
    let m = choose|m: int| 0 <= m < perm.len() && perm[m] == k;
    assert(r[m] == input[perm[m]]);
}

/// An injective map of `0..n` into `0..n` reaches every index.
proof fn lemma_perm_onto(perm: Seq<int>, n: int, k: int)
    requires
        perm.len() == n,
        forall|m: int| 0 <= m < n ==> 0 <= #[trigger] perm[m] < n,
        forall|m1: int, m2: int| 0 <= m1 < m2 < n ==> #[trigger] perm[m1] != #[trigger] perm[m2],
        0 <= k < n,
    ensures
        exists|m: int| 0 <= m < n && perm[m] == k,
{
    if !(exists|m: int| 0 <= m < n && perm[m] == k) {
        // the n values perm[0..n] would fit in n - 1 slots
        let others = Set::new(|v: int| 0 <= v < n && v != k);
        lemma_injective_image_len(perm, n);
        assert(perm.to_set().subset_of(others)) by {
            assert forall|v: int| perm.to_set().contains(v) implies others.contains(v) by {
                let m = choose|m: int| 0 <= m < perm.len() && perm[m] == v;
            }
        }
        lemma_range_set_len(n, k);
        vstd::set_lib::lemma_len_subset(perm.to_set(), others);
    }
}

proof fn lemma_injective_image_len(perm: Seq<int>, n: int)
    requires
        perm.len() == n,
        forall|m1: int, m2: int| 0 <= m1 < m2 < n ==> #[trigger] perm[m1] != #[trigger] perm[m2],
    ensures
        perm.to_set().len() == n,
{
    assert(perm.no_duplicates()) by {
        assert forall|i: int, j: int| 0 <= i < perm.len() && 0 <= j < perm.len() && i != j implies perm[i]
            != perm[j] by {
            if i < j {
            } else {
                assert(perm[j] != perm[i]);
            }
        }
    }
    perm.unique_seq_to_set();
}

proof fn lemma_range_set_len(n: int, k: int)
    requires
        0 <= k < n,
    ensures
        Set::new(|v: int| 0 <= v < n && v != k).len() == n - 1,
        Set::new(|v: int| 0 <= v < n && v != k).finite(),
{
    let s = Set::new(|v: int| 0 <= v < n && v != k);
    let full = vstd::set_lib::set_int_range(0, n);
    vstd::set_lib::lemma_int_range(0, n);
    assert(s =~= full.remove(k));
}

proof fn lemma_insert_sorted_stable(
    r: Seq<EntryView>,
    input: Seq<EntryView>,
    perm: Seq<int>,
    e: EntryView,
    pos: int,
)
    requires
        stable_arrangement(r, input, perm),
        sorted_listing(r),
        0 <= pos <= r.len(),
        forall|k: int| 0 <= k < pos ==> !listed_before(e, #[trigger] r[k]),
        pos < r.len() ==> listed_before(e, r[pos]),
    ensures
        stable_arrangement(r.insert(pos, e), input.push(e), perm.insert(pos, input.len() as int)),
        sorted_listing(r.insert(pos, e)),
{
    let r2 = r.insert(pos, e);
    let p2 = perm.insert(pos, input.len() as int);
    let in2 = input.push(e);
    r.insert_ensures(pos, e);
    perm.insert_ensures(pos, input.len() as int);
    // every entry at or after `pos` is strictly after `e`
    assert forall|j: int| pos <= j < r.len() implies listed_before(e, #[trigger] r[j]) by {
        lemma_listed_before_order(e, r[pos], r[j]);
        if j > pos {
            assert(!listed_before(r[j], r[pos]));
        }
    }
    assert forall|k: int| 0 <= k < r2.len() implies 0 <= #[trigger] p2[k] < in2.len() && r2[k]
        == in2[p2[k]] by {
        if k > pos {
            assert(r2[k] == r[k - 1]);
            assert(p2[k] == perm[k - 1]);
        }
    }
    assert forall|k1: int, k2: int| 0 <= k1 < k2 < r2.len() implies #[trigger] p2[k1]
        != #[trigger] p2[k2] by {
        if k1 < pos && k2 > pos {
            assert(p2[k2] == perm[k2 - 1]);
        } else if k1 > pos {
            assert(p2[k1] == perm[k1 - 1]);
            assert(p2[k2] == perm[k2 - 1]);
        } else if k1 == pos {
            assert(p2[k2] == perm[k2 - 1]);
        }
    }
    assert forall|k1: int, k2: int|
        0 <= k1 < k2 < r2.len() && same_rank(#[trigger] r2[k1], #[trigger] r2[k2]) implies p2[k1]
        < p2[k2] by {
        if k1 < pos && k2 > pos {
            assert(r2[k2] == r[k2 - 1]);
            assert(p2[k2] == perm[k2 - 1]);
        } else if k1 > pos {
            assert(r2[k1] == r[k1 - 1]);
            assert(r2[k2] == r[k2 - 1]);
            assert(p2[k1] == perm[k1 - 1]);
            assert(p2[k2] == perm[k2 - 1]);
        } else if k1 == pos {
            assert(r2[k2] == r[k2 - 1]);
            assert(listed_before(e, r[k2 - 1]));
        }
    }
    assert forall|i: int, j: int| 0 <= i < j < r2.len() implies !listed_before(
        #[trigger] r2[j],
        #[trigger] r2[i],
    ) by {
        if j < pos {
        } else if j == pos {
            assert(!listed_before(e, r[i]));
        } else if i < pos {
            assert(r2[j] == r[j - 1]);
            lemma_listed_before_order(r[j - 1], r[i], e);
            assert(!listed_before(e, r[i]));
            assert(listed_before(e, r[j - 1]));
            lemma_listed_before_order(e, r[j - 1], r[i]);
            lemma_listed_before_order(r[j - 1], e, r[j - 1]);
        } else if i == pos {
            assert(r2[j] == r[j - 1]);
            assert(listed_before(e, r[j - 1]));
            lemma_listed_before_order(e, r[j - 1], e);
            lemma_listed_before_order(r[j - 1], e, r[j - 1]);
        } else {
            assert(r2[j] == r[j - 1]);
            assert(r2[i] == r[i - 1]);
        }
    }
}

/// Whether `a` comes before `b` in the order of `str`.
pub fn bytes_less(a: &[u8], b: &[u8]) -> (r: bool)
    ensures
        r == bytes_lt(a@, b@),
{
    let n = a.len();
    let m = b.len();
    let mut i: usize = 0;
    assert(a@.skip(0) =~= a@);
    assert(b@.skip(0) =~= b@);
    while i < n && i < m
        invariant
            i <= n,
            i <= m,
            n == a@.len(),
            m == b@.len(),
            bytes_lt(a@, b@) == bytes_lt(a@.skip(i as int), b@.skip(i as int)),
        decreases n - i,
    {
        if a[i] != b[i] {
            assert(a@.skip(i as int)[0] == a@[i as int]);
            assert(b@.skip(i as int)[0] == b@[i as int]);
            return a[i] < b[i];
        }
        assert(a@.skip(i as int).drop_first() =~= a@.skip(i + 1));
        assert(b@.skip(i as int).drop_first() =~= b@.skip(i + 1));
        i = i + 1;
    }
    i < m
}

/// Whether `x` is listed strictly before `y`.
pub fn entry_before(x: &EntryDto, y: &EntryDto) -> (r: bool)
    ensures
        r == listed_before(x@, y@),
{
    if x.is_dir != y.is_dir {
        return x.is_dir;
    }
    bytes_less(x.name.as_str().as_bytes(), y.name.as_str().as_bytes())
}

/// The path of `name` inside the directory `dir`, both relative to a shared root.
pub fn join_entry_path(dir: &str, name: &str) -> (r: String)
    ensures
        r@ == entry_path(dir@, name@),
{
    if dir.is_empty() {
        String::from_str(name)
    } else {
        let mut r = trim_end_matches_char(dir, '/');
        r.append("/");
        proof {
            reveal_strlit("/");
        }
        r.append(name);
        assert(r@ =~= trim_end_char(dir@, '/') + seq!['/'] + name@);
        r
    }
}

/// The listing of the directory `dir` (relative to its shared root) whose
/// entries were read as `raw`: each entry gets its relative path, and the
/// list is sorted stably with directories first and then by name.
pub fn browse_listing(dir: &str, raw: &Vec<DirEntryInfo>) -> (r: Vec<EntryDto>)
    ensures
        stably_sorted(entry_views(r@), entries_of(dir@, raw@)),
{
    let ghost input = entries_of(dir@, raw@);
    let mut out: Vec<EntryDto> = Vec::new();
    let ghost mut perm: Seq<int> = Seq::empty();
    let mut i: usize = 0;
    assert(entry_views(out@) =~= Seq::<EntryView>::empty());
    assert(input.take(0) =~= Seq::<EntryView>::empty());
    while i < raw.len()
        invariant
            i <= raw.len(),
            input == entries_of(dir@, raw@),
            stable_arrangement(entry_views(out@), input.take(i as int), perm),
            sorted_listing(entry_views(out@)),
        decreases raw.len() - i,
    {
        let item = &raw[i];
        let dto = EntryDto {
            name: item.name.clone(),
            path: join_entry_path(dir, item.name.as_str()),
            is_dir: item.is_dir,
            size: item.size,
        };
        assert(dto@ == input[i as int]);
        let ghost rv = entry_views(out@);
        let mut pos: usize = 0;
        while pos < out.len() && !entry_before(&dto, &out[pos as usize])
            invariant
                pos <= out.len(),
                rv == entry_views(out@),
                forall|k: int| 0 <= k < pos ==> !listed_before(dto@, #[trigger] rv[k]),
            decreases out.len() - pos,
        {
            pos = pos + 1;
        }
        proof {
            lemma_insert_sorted_stable(rv, input.take(i as int), perm, dto@, pos as int);
            assert(input.take(i as int).push(dto@) =~= input.take(i + 1));
            perm = perm.insert(pos as int, i as int);
        }
        out.insert(pos, dto);
        assert(entry_views(out@) =~= rv.insert(pos as int, input[i as int]));
        i = i + 1;
    }
    assert(input.take(raw.len() as int) =~= input);
    proof {
        r_witness(entry_views(out@), input, perm);
    }
    out
}

proof fn r_witness(r: Seq<EntryView>, input: Seq<EntryView>, perm: Seq<int>)
    requires
        stable_arrangement(r, input, perm),
    ensures
        exists|p: Seq<int>| stable_arrangement(r, input, p),
{
}

} // verus!
