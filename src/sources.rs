//! The virtual file browser: listings merged from the bundled assets and the
//! live filesystem, and file contents cut into bounded chunks.
use crate::sandbox::{is_safe_path, normalize, normalize_path, validate_path};
use vstd::prelude::*;

verus! {

/// Flag of an entry that is a directory.
pub const DIR: u32 = 1;

/// Flag of an entry that is a regular file.
pub const FILE: u32 = 2;

/// Flag of an entry that is a symbolic link.
pub const SYMLINK: u32 = 4;

/// Flag of an entry that is (or contains) a bundled asset.
pub const ASSET: u32 = 8;

/// Flag of an entry that is a bundled resource.
pub const RESOURCE: u32 = 16;

/// Largest number of bytes in one chunk of a streamed file.
pub const CHUNK_SIZE: usize = 512;

/// The flag set of an entry with the given facts.
pub open spec fn file_type_bits(dir: bool, file: bool, symlink: bool, asset: bool) -> u32 {
    ((if dir { DIR } else { 0 }) + (if file { FILE } else { 0 }) + (if symlink { SYMLINK } else { 0 })
        + (if asset { ASSET } else { 0 })) as u32
}

/// A bundled asset: its bundle path (with a leading separator) and the size
/// of its served content.
#[derive(Clone, Debug)]
pub struct Asset {
    pub path: String,
    pub size: u64,
}

/// One row of a directory listing.
#[derive(Clone, Debug, PartialEq)]
pub struct Entry {
    pub path: String,
    pub size: u64,
    pub file_type: u32,
}

/// One slice of a streamed file.
#[derive(Clone, Debug, PartialEq)]
pub struct Chunk {
    pub bytes: Vec<u8>,
}

/// Why a request for entries failed.
#[derive(Clone, Copy, Debug, PartialEq, Eq, Structural)]
pub enum SourceError {
    /// The path was refused by the sandbox.
    NotFound,
    /// Reading from the filesystem failed.
    Internal,
}

/// Where the entries of a listing come from.
#[derive(Clone, Debug, PartialEq)]
pub enum ListPlan {
    /// From the asset bundle, below the given root.
    Assets(String),
    /// From the directory at the given path below the sandbox root.
    Dir(String),
}

/// Where the bytes of an entry come from.
#[derive(Clone, Debug, PartialEq)]
pub enum BytesPlan {
    /// From the bundled asset at this index.
    Asset(usize),
    /// From the file at the given path below the sandbox root.
    File(String),
}

/// `a` without its first character (the bundle's leading separator).
pub open spec fn strip_lead(a: Seq<char>) -> Seq<char> {
    if a.len() == 0 {
        a
    } else {
        a.skip(1)
    }
}

/// The index of the first asset whose bundle path, without its leading
/// separator, is `p`.
pub open spec fn first_asset_with_path(assets: Seq<Asset>, p: Seq<char>) -> Option<usize> {
    if exists|i: int| 0 <= i < assets.len() && #[trigger] strip_lead(assets[i].path@) == p {
        let i = choose|i: int|
            0 <= i < assets.len() && #[trigger] strip_lead(assets[i].path@) == p && forall|j: int|
                0 <= j < i ==> #[trigger] strip_lead(assets[j].path@) != p;
        Some(i as usize)
    } else {
        None
    }
}

fn strip_lead_exec(a: &str) -> (r: String)
    ensures
        r@ == strip_lead(a@),
{
    let n = a.unicode_len();
    if n == 0 {
        a.to_owned()
    } else {
        let t = a.substring_char(1, n);
        assert(t@ =~= a@.skip(1));
        t.to_owned()
    }
}

/// Decides where the listing of `path` comes from, reading `path` by the
/// host's rules (`windows`). A path that the sandbox refuses is not found.
/// With no bundled assets the live directory is read; otherwise the bundle
/// is listed below the normal form of `path`.
pub fn plan_list_entries(path: &str, windows: bool, asset_count: usize) -> (r: Result<
    ListPlan,
    SourceError,
>)
    ensures
        !is_safe_path(path@, windows) ==> r == Err::<ListPlan, SourceError>(SourceError::NotFound),
        is_safe_path(path@, windows) && asset_count == 0 ==> (r matches Ok(ListPlan::Dir(p)) && p@
            == path@),
        is_safe_path(path@, windows) && asset_count > 0 ==> (r matches Ok(ListPlan::Assets(root))
            && root@ == normalize(path@, windows)),
{
    if !validate_path(path, windows) {
        return Err(SourceError::NotFound);
    }
    if asset_count == 0 {
        Ok(ListPlan::Dir(path.to_owned()))
    } else {
        Ok(ListPlan::Assets(normalize_path(path, windows)))
    }
}

/// Decides where the bytes of `path` come from, reading `path` by the
/// host's rules (`windows`). A path that the sandbox refuses is not found.
/// The first bundled asset whose path, without its leading separator, is
/// the normal form of `path` is served from the bundle; any other path from
/// the file.
pub fn plan_entry_bytes(path: &str, windows: bool, assets: &Vec<Asset>) -> (r: Result<
    BytesPlan,
    SourceError,
>)
    ensures
        !is_safe_path(path@, windows) ==> r == Err::<BytesPlan, SourceError>(SourceError::NotFound),
        is_safe_path(path@, windows) ==> match first_asset_with_path(
            assets@,
            normalize(path@, windows),
        ) {
            Some(i) => r == Ok::<BytesPlan, SourceError>(BytesPlan::Asset(i)),
            None => r matches Ok(BytesPlan::File(p)) && p@ == path@,
        },
{
    if !validate_path(path, windows) {
        return Err(SourceError::NotFound);
    }
    let wanted = normalize_path(path, windows);
    let mut i: usize = 0;
    while i < assets.len()
        invariant
            i <= assets@.len(),
            is_safe_path(path@, windows),
            wanted@ == normalize(path@, windows),
            forall|j: int| 0 <= j < i ==> #[trigger] strip_lead(assets@[j].path@) != wanted@,
        decreases assets.len() - i,
    {
        let stripped = strip_lead_exec(assets[i].path.as_str());
        if stripped == wanted {
            assert(strip_lead(assets@[i as int].path@) == wanted@);
            let ghost p = wanted@;
            proof {
                let k = choose|k: int|
                    0 <= k < assets@.len() && #[trigger] strip_lead(assets@[k].path@) == p && forall|
                        j: int,
                    | 0 <= j < k ==> #[trigger] strip_lead(assets@[j].path@) != p;
                assert(k == i) by {
                    if k < i {
                    } else if k > i {
                        assert(strip_lead(assets@[i as int].path@) == p);
                    }
                }
            }
            return Ok(BytesPlan::Asset(i));
        }
        i = i + 1;
    }
    Ok(BytesPlan::File(path.to_owned()))
}

/// The chunks that a buffer of `len` bytes is cut into.
pub open spec fn chunk_count(len: nat) -> nat {
    (len + CHUNK_SIZE - 1) as nat / (CHUNK_SIZE as nat)
}

/// Bytes `[start, start + CHUNK_SIZE)` of `b`, cut at its end.
pub open spec fn chunk_at(b: Seq<u8>, i: int) -> Seq<u8> {
    let start = i * CHUNK_SIZE;
    let end = if start + CHUNK_SIZE <= b.len() { start + CHUNK_SIZE } else { b.len() as int };
    b.subrange(start, end)
}

/// Cuts `bytes` into consecutive chunks of `CHUNK_SIZE` bytes; the last one
/// holds what remains. An empty buffer gives no chunk.
pub fn chunk_bytes(bytes: &[u8]) -> (r: Vec<Chunk>)
    ensures
        r@.len() == chunk_count(bytes@.len()),
        forall|i: int| 0 <= i < r@.len() ==> #[trigger] r@[i].bytes@ == chunk_at(bytes@, i),
{
    let n = bytes.len();
    let mut out: Vec<Chunk> = Vec::new();
    let mut start: usize = 0;
    while start < n
        invariant
            n == bytes@.len(),
            start <= n,
            start < n ==> start == out@.len() * CHUNK_SIZE,
            out@.len() * CHUNK_SIZE >= start,
            out@.len() == 0 ==> start == 0,
            out@.len() > 0 ==> (out@.len() - 1) * CHUNK_SIZE < start,
            forall|i: int| 0 <= i < out@.len() ==> #[trigger] out@[i].bytes@ == chunk_at(bytes@, i),
        decreases n - start,
    {
        let end = if n - start >= CHUNK_SIZE { start + CHUNK_SIZE } else { n };
        let mut piece: Vec<u8> = Vec::new();
        let mut j = start;
        while j < end
            invariant
                start <= j <= end <= n,
                n == bytes@.len(),
                piece@ == bytes@.subrange(start as int, j as int),
            decreases end - j,
        {
            piece.push(bytes[j]);
            assert(piece@ =~= bytes@.subrange(start as int, j + 1));
            j = j + 1;
        }
        let ghost len0 = out@.len();
        assert(piece@ == chunk_at(bytes@, len0 as int));
        out.push(Chunk { bytes: piece });
        assert((len0 + 1) * CHUNK_SIZE == len0 * CHUNK_SIZE + CHUNK_SIZE) by (nonlinear_arith);
        start = end;
    }
    assert(out@.len() == chunk_count(n as nat)) by (nonlinear_arith)
        requires
            out@.len() * CHUNK_SIZE >= n,
            out@.len() == 0 ==> n == 0,
            out@.len() > 0 ==> (out@.len() - 1) * CHUNK_SIZE < n,
    ;
    out
}


impl View for Entry {
    type V = (Seq<char>, u64, u32);

    open spec fn view(&self) -> (Seq<char>, u64, u32) {
        (self.path@, self.size, self.file_type)
    }
}


/// The part of bundle path `a` below `root`, if `a` lies below it.
pub open spec fn asset_rel(a: Seq<char>, root: Seq<char>) -> Option<Seq<char>> {
    let p = strip_lead(a);
    if root.len() == 0 {
        Some(p)
    } else if root.push('/').is_prefix_of(p) {
        Some(p.skip(root.len() + 1int))
    } else {
        None
    }
}

/// A `/` stands at position `i` of `s`, and at no earlier one.
pub open spec fn first_slash_at(s: Seq<char>, i: int) -> bool {
    0 <= i < s.len() && s[i] == '/' && forall|j: int| 0 <= j < i ==> s[j] != '/'
}

/// The listing row that asset `a` gives below `root`: a nested path becomes
/// the directory that holds it (no size), a direct child a file with the
/// asset's size.
pub open spec fn asset_entry(a: Asset, root: Seq<char>) -> Option<(Seq<char>, u64, u32)> {
    match asset_rel(a.path@, root) {
        None => None,
        Some(rel) => if exists|i: int| first_slash_at(rel, i) {
            let i = choose|i: int| first_slash_at(rel, i);
            Some((rel.take(i), 0u64, file_type_bits(true, false, false, true)))
        } else {
            Some((rel, a.size, file_type_bits(false, true, false, true)))
        },
    }
}

/// Some row of `es` has path `p`.
pub open spec fn has_path(es: Seq<(Seq<char>, u64, u32)>, p: Seq<char>) -> bool {
    exists|k: int| 0 <= k < es.len() && (#[trigger] es[k]).0 == p
}

/// The listing of the bundle below `root`: one row per distinct path, in the
/// order the paths first occur, each from the first asset that gives it.
pub open spec fn asset_listing(assets: Seq<Asset>, root: Seq<char>) -> Seq<(Seq<char>, u64, u32)>
    decreases assets.len(),
{
    if assets.len() == 0 {
        Seq::empty()
    } else {
        let prev = asset_listing(assets.drop_last(), root);
        match asset_entry(assets.last(), root) {
            Some(e) => if has_path(prev, e.0) {
                prev
            } else {
                prev.push(e)
            },
            None => prev,
        }
    }
}

/// The part of `a.path` below `root`, computed as `asset_rel` states.
fn asset_rel_exec(a: &str, root: &str) -> (r: Option<String>)
    ensures
        match asset_rel(a@, root@) {
            Some(rel) => r matches Some(x) && x@ == rel,
            None => r is None,
        },
{
    let n = a.unicode_len();
    let p: &str = if n == 0 {
        a
    } else {
        a.substring_char(1, n)
    };
    assert(p@ == strip_lead(a@));
    let rn = root.unicode_len();
    if rn == 0 {
        return Some(p.to_owned());
    }
    let pn = p.unicode_len();
    if pn <= rn || p.get_char(rn) != '/' {
        assert(!root@.push('/').is_prefix_of(p@)) by {
            if pn > rn {
                assert(root@.push('/')[rn as int] == '/');
            }
        }
        return None;
    }
    let mut k: usize = 0;
    while k < rn
        invariant
            rn == root@.len(),
            pn == p@.len(),
            p@ == strip_lead(a@),
            0 < rn < pn,
            p@[rn as int] == '/',
            k <= rn,
            forall|j: int| 0 <= j < k ==> p@[j] == root@[j],
        decreases rn - k,
    {
        if p.get_char(k) != root.get_char(k) {
            assert(!root@.push('/').is_prefix_of(p@)) by {
                assert(root@.push('/')[k as int] == root@[k as int]);
                if root@.push('/').is_prefix_of(p@) {
                    assert(p@.subrange(0, rn + 1)[k as int] == p@[k as int]);
                }
            }
            return None;
        }
        k = k + 1;
    }
    assert(root@.push('/') =~= p@.take(rn + 1));
    let rel = p.substring_char(rn + 1, pn);
    assert(rel@ =~= p@.skip(rn + 1));
    Some(rel.to_owned())
}

/// The row that asset `a` gives below `root`, as `asset_entry` states.
fn asset_entry_exec(a: &Asset, root: &str) -> (r: Option<Entry>)
    ensures
        match asset_entry(*a, root@) {
            Some(e) => r matches Some(x) && x@ == e,
            None => r is None,
        },
{
    let rel = match asset_rel_exec(a.path.as_str(), root) {
        None => return None,
        Some(rel) => rel,
    };
    assert(asset_rel(a.path@, root@) == Some(rel@));
    let rs: &str = rel.as_str();
    let n = rs.unicode_len();
    let mut i: usize = 0;
    while i < n
        invariant
            n == rs@.len(),
            rs@ == rel@,
            asset_rel(a.path@, root@) == Some(rel@),
            i <= n,
            forall|j: int| 0 <= j < i ==> rs@[j] != '/',
        decreases n - i,
    {
        if rs.get_char(i) == '/' {
            assert(first_slash_at(rs@, i as int));
            assert forall|m: int| first_slash_at(rs@, m) implies m == i by {
                if m < i {
                } else if m > i {
                    assert(rs@[i as int] == '/');
                }
            }
            let dir = rs.substring_char(0, i);
            assert(dir@ =~= rs@.take(i as int));
            let e = Entry { path: dir.to_owned(), size: 0, file_type: DIR + ASSET };
            assert(e.file_type == file_type_bits(true, false, false, true));
            assert(e@ == (rel@.take(i as int), 0u64, file_type_bits(true, false, false, true)));
            return Some(e);
        }
        i = i + 1;
    }
    assert(!exists|m: int| first_slash_at(rs@, m));
    Some(Entry { path: rel, size: a.size, file_type: FILE + ASSET })
}

/// Lists the bundled assets below `root` (`""` for the top of the bundle).
/// Each asset lying below `root` gives one row; a path nested further down
/// gives the directory directly below `root` that holds it. Rows repeat no
/// path: the first asset to give a path decides its row.
pub fn list_entries_from_assets(assets: &Vec<Asset>, root: &str) -> (r: Vec<Entry>)
    ensures
        r@.len() == asset_listing(assets@, root@).len(),
        forall|i: int| 0 <= i < r@.len() ==> #[trigger] r@[i]@ == asset_listing(assets@, root@)[i],
{
    let mut out: Vec<Entry> = Vec::new();
    let mut i: usize = 0;
    while i < assets.len()
        invariant
            i <= assets@.len(),
            out@.len() == asset_listing(assets@.take(i as int), root@).len(),
            forall|k: int|
                0 <= k < out@.len() ==> #[trigger] out@[k]@ == asset_listing(
                    assets@.take(i as int),
                    root@,
                )[k],
        decreases assets.len() - i,
    {
        let ghost prev = asset_listing(assets@.take(i as int), root@);
        assert(assets@.take(i + 1).drop_last() =~= assets@.take(i as int));
        assert(assets@.take(i + 1).last() == assets@[i as int]);
        match asset_entry_exec(&assets[i], root) {
            None => {},
            Some(e) => {
                let mut seen = false;
                let mut k: usize = 0;
                while k < out.len()
                    invariant
                        k <= out@.len(),
                        out@.len() == prev.len(),
                        forall|m: int| 0 <= m < out@.len() ==> #[trigger] out@[m]@ == prev[m],
                        !seen ==> forall|m: int| 0 <= m < k ==> (#[trigger] prev[m]).0 != e@.0,
                        seen ==> has_path(prev, e@.0),
                    decreases out.len() - k,
                {
                    assert(out@[k as int]@ == prev[k as int]);
                    if out[k].path == e.path {
                        assert(prev[k as int].0 == e@.0);
                        seen = true;
                    }
                    k = k + 1;
                }
                if !seen {
                    out.push(e);
                }
            },
        }
        i = i + 1;
    }
    assert(assets@.take(assets@.len() as int) =~= assets@);
    out
}

/// `sfx` ends `s`.
fn ends_with(s: &str, sfx: &str) -> (r: bool)
    ensures
        r == sfx@.is_suffix_of(s@),
{
    let n = s.unicode_len();
    let m = sfx.unicode_len();
    if m > n {
        return false;
    }
    let mut k: usize = 0;
    while k < m
        invariant
            n == s@.len(),
            m == sfx@.len(),
            m <= n,
            k <= m,
            forall|j: int| 0 <= j < k ==> sfx@[j] == s@[n - m + j],
        decreases m - k,
    {
        if sfx.get_char(k) != s.get_char(n - m + k) {
            assert(s@.skip(n - m)[k as int] == s@[n - m + k]);
            return false;
        }
        k = k + 1;
    }
    assert(sfx@ =~= s@.skip(n - m));
    true
}

/// Some bundled asset path ends with `name`.
pub open spec fn named_in_bundle(assets: Seq<Asset>, name: Seq<char>) -> bool {
    exists|i: int| 0 <= i < assets.len() && name.is_suffix_of(#[trigger] assets[i].path@)
}

/// The row for one child `name` of a listed directory, from its on-disk
/// kind and length. It is marked as an asset when some bundled path ends
/// with `name`; a loose match, which can err either way.
pub fn dir_entry(
    name: String,
    size: u64,
    is_dir: bool,
    is_file: bool,
    is_symlink: bool,
    assets: &Vec<Asset>,
) -> (r: Entry)
    ensures
        r@ == (name@, size, file_type_bits(is_dir, is_file, is_symlink, named_in_bundle(assets@, name@))),
{
    let mut is_asset = false;
    let mut i: usize = 0;
    while i < assets.len()
        invariant
            i <= assets@.len(),
            is_asset == exists|j: int| 0 <= j < i && name@.is_suffix_of(#[trigger] assets@[j].path@),
        decreases assets.len() - i,
    {
        if ends_with(assets[i].path.as_str(), name.as_str()) {
            is_asset = true;
        }
        i = i + 1;
    }
    let bits: u32 = (if is_dir { DIR } else { 0 }) + (if is_file { FILE } else { 0 }) + (if is_symlink { SYMLINK } else { 0 }) + (if is_asset { ASSET } else { 0 });
    Entry { path: name, size, file_type: bits }
}

/// The chunk that one read of a file yields: a read of `n` bytes into
/// `buf` yields exactly those bytes; a read of none ends the stream.
pub fn chunk_of_read(buf: &[u8], n: usize) -> (r: Option<Chunk>)
    requires
        n <= buf@.len(),
    ensures
        n == 0 ==> r is None,
        n > 0 ==> (r matches Some(c) && c.bytes@ == buf@.take(n as int)),
{
    if n == 0 {
        return None;
    }
    let mut bytes: Vec<u8> = Vec::new();
    let mut j: usize = 0;
    while j < n
        invariant
            j <= n <= buf@.len(),
            bytes@ == buf@.take(j as int),
        decreases n - j,
    {
        bytes.push(buf[j]);
        assert(bytes@ =~= buf@.take(j + 1));
        j = j + 1;
    }
    Some(Chunk { bytes })
}

/// The chunks of `b`, as `chunk_bytes` cuts them.
pub open spec fn chunks_of(b: Seq<u8>) -> Seq<Seq<u8>> {
    Seq::new(chunk_count(b.len()), |i: int| chunk_at(b, i))
}

/// The concatenation of `cs`, in order.
pub open spec fn joined(cs: Seq<Seq<u8>>) -> Seq<u8>
    decreases cs.len(),
{
    if cs.len() == 0 {
        Seq::empty()
    } else {
        joined(cs.drop_last()) + cs.last()
    }
}

proof fn lemma_joined_prefix(b: Seq<u8>, m: int)
    requires
        0 <= m <= chunk_count(b.len()),
    ensures
        joined(chunks_of(b).take(m)) == b.take(
            if m * CHUNK_SIZE <= b.len() { m * CHUNK_SIZE } else { b.len() as int },
        ),
    decreases m,
{
    let n = b.len() as int;
    if m == 0 {
        assert(chunks_of(b).take(0) =~= Seq::<Seq<u8>>::empty());
        assert(b.take(0) =~= Seq::<u8>::empty());
    } else {
        lemma_joined_prefix(b, m - 1);
        assert(chunks_of(b).take(m).drop_last() =~= chunks_of(b).take(m - 1));
        assert((m - 1) * CHUNK_SIZE < n) by (nonlinear_arith)
            requires
                m <= (n + CHUNK_SIZE - 1) / (CHUNK_SIZE as int),
                1 <= m,
                0 <= n,
        ;
        assert(m * CHUNK_SIZE == (m - 1) * CHUNK_SIZE + CHUNK_SIZE) by (nonlinear_arith);
        let start = (m - 1) * CHUNK_SIZE;
        let end = if m * CHUNK_SIZE <= n { m * CHUNK_SIZE } else { n };
        assert(chunks_of(b).take(m).last() == chunk_at(b, m - 1));
        assert(b.take(start) + b.subrange(start, end) =~= b.take(end));
    }
}

/// Cutting bytes into chunks loses and reorders nothing: the chunks, put
/// back together in order, are the bytes; each chunk holds at least one byte
/// and at most `CHUNK_SIZE`.
pub proof fn lemma_chunks_rebuild(b: Seq<u8>)
    ensures
        joined(chunks_of(b)) == b,
        forall|i: int|
            0 <= i < chunks_of(b).len() ==> 0 < (#[trigger] chunks_of(b)[i]).len() <= CHUNK_SIZE,
{
    let n = b.len() as int;
    let c = chunk_count(b.len()) as int;
    lemma_joined_prefix(b, c);
    assert(chunks_of(b).take(c) =~= chunks_of(b));
    assert(c * CHUNK_SIZE >= n) by (nonlinear_arith)
        requires
            c == (n + CHUNK_SIZE - 1) / (CHUNK_SIZE as int),
            0 <= n,
    ;
    assert(b.take(n) =~= b);
    assert forall|i: int| 0 <= i < chunks_of(b).len() implies 0 < (
    #[trigger] chunks_of(b)[i]).len() <= CHUNK_SIZE by {
        assert(i * CHUNK_SIZE < n) by (nonlinear_arith)
            requires
                i < c,
                c == (n + CHUNK_SIZE - 1) / (CHUNK_SIZE as int),
                0 <= i,
                0 <= n,
        ;
    }
}

/// A bundle listing names each path at most once, so two listings of an
/// unchanged bundle hold the same rows, whatever their order.
pub proof fn lemma_listing_paths_distinct(assets: Seq<Asset>, root: Seq<char>)
    ensures
        forall|a: int, b: int|
            0 <= a < b < asset_listing(assets, root).len() ==> (#[trigger] asset_listing(
                assets,
                root,
            )[a]).0 != (#[trigger] asset_listing(assets, root)[b]).0,
    decreases assets.len(),
{
    if assets.len() > 0 {
        lemma_listing_paths_distinct(assets.drop_last(), root);
        let prev = asset_listing(assets.drop_last(), root);
        let cur = asset_listing(assets, root);
        assert forall|a: int, b: int| 0 <= a < b < cur.len() implies (#[trigger] cur[a]).0 != (
        #[trigger] cur[b]).0 by {
            if b >= prev.len() {
                assert(cur[a] == prev[a]);
                assert(!has_path(prev, cur[b].0));
            } else {
                assert(cur[a] == prev[a] && cur[b] == prev[b]);
            }
        }
    }
}

} // verus!
