//! Picking the wallpapers out of a directory listing.

use vstd::prelude::*;

verus! {

/// One entry of a directory listing: its full path and whether it is a
/// regular file.
#[derive(Debug)]
pub struct ListedEntry {
    pub path: String,
    pub is_file: bool,
}

impl ListedEntry {
    pub fn new(path: String, is_file: bool) -> (r: ListedEntry)
        ensures
            r.path@ == path@,
            r.is_file == is_file,
    {
        ListedEntry { path, is_file }
    }
}

/// `k` is the dot that starts the extension of the last component of `p`:
/// the last dot of that component, and not its first character.
pub open spec fn is_extension_dot(p: Seq<char>, k: int) -> bool {
    &&& 0 < k < p.len()
    &&& p[k] == '.'
    &&& p[k - 1] != '/'
    &&& forall|j: int| k < j < p.len() ==> p[j] != '.' && p[j] != '/'
}

/// The extensions that mark a wallpaper, compared case-sensitively.
pub open spec fn is_allowed_extension(ext: Seq<char>) -> bool {
    ||| ext == seq!['j', 'p', 'g']
    ||| ext == seq!['p', 'n', 'g']
    ||| ext == seq!['j', 'p', 'e', 'g']
}

/// The last component of `p` has one of the allowed extensions.
pub open spec fn has_image_extension(p: Seq<char>) -> bool {
    exists|k: int| is_extension_dot(p, k) && is_allowed_extension(p.subrange(k + 1, p.len() as int))
}

/// A listing entry is a wallpaper: a regular file with an allowed extension.
pub open spec fn is_image_entry(e: ListedEntry) -> bool {
    e.is_file && has_image_extension(e.path@)
}

/// The paths of the wallpapers of a listing, in listing order.
pub open spec fn image_paths(entries: Seq<ListedEntry>) -> Seq<Seq<char>>
    decreases entries.len(),
{
    if entries.len() == 0 {
        Seq::empty()
    } else {
        let rest = image_paths(entries.drop_last());
        if is_image_entry(entries.last()) {
            rest.push(entries.last().path@)
        } else {
            rest
        }
    }
}

proof fn lemma_extension_dot_unique(p: Seq<char>, k: int, m: int)
    requires
        is_extension_dot(p, k),
        is_extension_dot(p, m),
    ensures
        k == m,
{
    if k < m {
        assert(p[m] != '.');
    } else if m < k {
        assert(p[k] != '.');
    }
}

/// Whether the characters of `p` from `start` on are exactly `ext`.
fn tail_equals(p: &str, start: usize, ext: &[char]) -> (r: bool)
    requires
        start <= p@.len(),
    ensures
        r == (p@.subrange(start as int, p@.len() as int) == ext@),
{
    let n = p.unicode_len();
    if n - start != ext.len() {
        assert(p@.subrange(start as int, p@.len() as int).len() != ext@.len());
        return false;
    }
    let mut i: usize = 0;
    while i < ext.len()
        invariant
            n == p@.len(),
            start + ext@.len() == n,
            0 <= i <= ext@.len(),
            forall|j: int| 0 <= j < i ==> p@[start + j] == ext@[j],
        decreases ext.len() - i,
    {
        if p.get_char(start + i) != ext[i] {
            assert(p@.subrange(start as int, p@.len() as int)[i as int] != ext@[i as int]);
            return false;
        }
        i = i + 1;
    }
    assert(p@.subrange(start as int, p@.len() as int) =~= ext@);
    true
}

/// Whether the file named by `p` has one of the extensions `jpg`, `png` or
/// `jpeg`, compared case-sensitively. A name whose only dot is its first
/// character has no extension.
pub fn has_allowed_extension(p: &str) -> (r: bool)
    ensures
        r == has_image_extension(p@),
{
    let n = p.unicode_len();
    let mut i: usize = n;
    while i > 0 && p.get_char(i - 1) != '.' && p.get_char(i - 1) != '/'
        invariant
            n == p@.len(),
            0 <= i <= n,
            forall|j: int| i <= j < n ==> p@[j] != '.' && p@[j] != '/',
        decreases i,
    {
        i = i - 1;
    }
    // either i == 0, or p[i - 1] is the last dot or slash
    if i == 0 || i == 1 || p.get_char(i - 1) == '/' || p.get_char(i - 2) == '/' {
        assert forall|k: int| !is_extension_dot(p@, k) by {
            if is_extension_dot(p@, k) {
                if k >= i {
                    assert(p@[k] != '.');
                } else if k < i - 1 {
                    assert(p@[i - 1] == '.' || p@[i - 1] == '/');
                }
            }
        }
        return false;
    }
    let k: usize = i - 1;
    assert(is_extension_dot(p@, k as int));
    proof {
        assert forall|m: int| is_extension_dot(p@, m) implies m == k by {
            lemma_extension_dot_unique(p@, k as int, m);
        }
    }
    let jpg = ['j', 'p', 'g'];
    let png = ['p', 'n', 'g'];
    let jpeg = ['j', 'p', 'e', 'g'];
    assert(jpg@ =~= seq!['j', 'p', 'g']);
    assert(png@ =~= seq!['p', 'n', 'g']);
    assert(jpeg@ =~= seq!['j', 'p', 'e', 'g']);
    tail_equals(p, i, jpg.as_slice()) || tail_equals(p, i, png.as_slice()) || tail_equals(
        p,
        i,
        jpeg.as_slice(),
    )
}

/// Whether a listing entry is a wallpaper.
pub fn is_image(entry: &ListedEntry) -> (r: bool)
    ensures
        r == is_image_entry(*entry),
{
    entry.is_file && has_allowed_extension(entry.path.as_str())
}

/// The image set of a directory listing: the paths of its regular files with
/// an allowed extension, in listing order. Subdirectories and other files are
/// left out.
pub fn image_set(entries: &Vec<ListedEntry>) -> (r: Vec<String>)
    ensures
        r@.map_values(|s: String| s@) == image_paths(entries@),
{
    let mut r: Vec<String> = Vec::new();
    let mut i: usize = 0;
    while i < entries.len()
        invariant
            0 <= i <= entries@.len(),
            r@.map_values(|s: String| s@) == image_paths(entries@.subrange(0, i as int)),
        decreases entries.len() - i,
    {
        let ghost before = r@;
        let e = &entries[i];
        assert(entries@.subrange(0, i + 1).drop_last() =~= entries@.subrange(0, i as int));
        if is_image(e) {
            r.push(e.path.clone());
            assert(r@.map_values(|s: String| s@) =~= before.map_values(|s: String| s@).push(
                e.path@,
            ));
        }
        i = i + 1;
    }
    assert(entries@.subrange(0, entries@.len() as int) =~= entries@);
    r
}

/// A path is in the image set of a listing exactly when the listing has a
/// regular file at that path with an allowed extension: subdirectories and
/// files with other extensions never enter it, whatever their names.
pub proof fn lemma_image_set_members(entries: Seq<ListedEntry>, x: Seq<char>)
    ensures
        image_paths(entries).contains(x) <==> exists|i: int|
            0 <= i < entries.len() && is_image_entry(#[trigger] entries[i]) && entries[i].path@ == x,
    decreases entries.len(),
{
    if entries.len() > 0 {
        let init = entries.drop_last();
        lemma_image_set_members(init, x);
        let n = entries.len() - 1;
        if image_paths(entries).contains(x) {
            if !image_paths(init).contains(x) {
                let k = choose|k: int| 0 <= k < image_paths(entries).len() && image_paths(entries)[k] == x;
                assert(k == image_paths(init).len());
                assert(is_image_entry(entries[n]) && entries[n].path@ == x);
            } else {
                let i = choose|i: int|
                    0 <= i < init.len() && is_image_entry(#[trigger] init[i]) && init[i].path@ == x;
                assert(entries[i] == init[i]);
            }
        }
        if exists|i: int|
            0 <= i < entries.len() && is_image_entry(#[trigger] entries[i]) && entries[i].path@ == x {
            let i = choose|i: int|
                0 <= i < entries.len() && is_image_entry(#[trigger] entries[i]) && entries[i].path@ == x;
            if i == n {
                assert(image_paths(entries)[image_paths(init).len() as int] == x);
            } else {
                assert(init[i] == entries[i]);
                let k = choose|k: int| 0 <= k < image_paths(init).len() && image_paths(init)[k] == x;
                if is_image_entry(entries.last()) {
                    assert(image_paths(entries)[k] == x);
                }
            }
        }
    }
}

} // verus!
