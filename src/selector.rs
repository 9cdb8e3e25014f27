//! Choosing the next wallpaper from the image set and the recorded current one.

use vstd::prelude::*;

verus! {

/// The path strings of an image set, as sequences of characters.
pub open spec fn paths_view(images: Seq<String>) -> Seq<Seq<char>> {
    images.map_values(|s: String| s@)
}

/// The recorded current wallpaper, as a sequence of characters.
pub open spec fn current_view(current: Option<String>) -> Option<Seq<char>> {
    match current {
        Some(s) => Some(s@),
        None => None,
    }
}

/// `i` is the first position of `images` that holds exactly `c`.
pub open spec fn is_first_match(images: Seq<Seq<char>>, c: Seq<char>, i: int) -> bool {
    &&& 0 <= i < images.len()
    &&& images[i] == c
    &&& forall|j: int| 0 <= j < i ==> images[j] != c
}

/// The recorded path occurs somewhere in the image set.
pub open spec fn is_listed(images: Seq<Seq<char>>, current: Option<Seq<char>>) -> bool {
    current is Some && exists|i: int| is_first_match(images, current->0, i)
}

/// The position of the wallpaper that follows `current`: the one after its
/// first occurrence, wrapping round at the end; the first one when `current`
/// is absent or not listed.
pub open spec fn next_index(images: Seq<Seq<char>>, current: Option<Seq<char>>) -> int {
    if is_listed(images, current) {
        let i = choose|i: int| is_first_match(images, current->0, i);
        (i + 1) % (images.len() as int)
    } else {
        0
    }
}

/// Why no next wallpaper could be chosen.
#[derive(Debug, Clone, Copy, PartialEq, Eq, Structural)]
pub enum NextImageError {
    /// The image set is empty.
    NotFound,
}

impl NextImageError {
    /// A message for the user.
    pub fn message(&self) -> (r: String)
        ensures
            r@ == "No next image file found"@,
    {
        String::from_str("No next image file found")
    }
}

proof fn lemma_first_match_unique(images: Seq<Seq<char>>, c: Seq<char>, i: int, k: int)
    requires
        is_first_match(images, c, i),
        is_first_match(images, c, k),
    ensures
        i == k,
{
    if i < k {
        assert(images[i] != c);
    } else if k < i {
        assert(images[k] != c);
    }
}

/// The first position of `images` whose path equals `current` exactly.
pub fn find_current(images: &Vec<String>, current: &Option<String>) -> (r: Option<usize>)
    ensures
        match r {
            Some(i) => current is Some && is_first_match(
                paths_view(images@),
                current_view(*current)->0,
                i as int,
            ),
            None => !is_listed(paths_view(images@), current_view(*current)),
        },
{
    let ghost view = paths_view(images@);
    match current {
        None => None,
        Some(c) => {
            let mut i: usize = 0;
            while i < images.len()
                invariant
                    0 <= i <= images.len(),
                    view == paths_view(images@),
                    current_view(*current) == Some(c@),
                    forall|j: int| 0 <= j < i ==> view[j] != c@,
                decreases images.len() - i,
            {
                assert(view[i as int] == images@[i as int]@);
                if images[i] == *c {
                    return Some(i);
                }
                i = i + 1;
            }
            assert forall|k: int| !is_first_match(view, c@, k) by {
                if 0 <= k < view.len() {
                    assert(view[k] != c@);
                }
            }
            None
        },
    }
}

/// The wallpaper that follows `current` in `images`: the entry after the
/// first one equal to `current`, the first entry after the last, and the
/// first entry when `current` is absent or not listed.
pub fn select_next(images: &Vec<String>, current: &Option<String>) -> (r: Result<
    String,
    NextImageError,
>)
    ensures
        r is Err <==> images@.len() == 0,
        r is Err ==> r->Err_0 == NextImageError::NotFound,
        r is Ok ==> r->Ok_0@ == paths_view(images@)[next_index(
            paths_view(images@),
            current_view(*current),
        )],
{
    if images.len() == 0 {
        return Err(NextImageError::NotFound);
    }
    let ghost view = paths_view(images@);
    let ghost cur = current_view(*current);
    let next: usize = match find_current(images, current) {
        Some(i) => {
            proof {
                let k = choose|k: int| is_first_match(view, cur->0, k);
                lemma_first_match_unique(view, cur->0, i as int, k);
            }
            if i + 1 < images.len() {
                let ghost n = images@.len() as int;
                assert((i + 1) as int % n == i + 1) by (nonlinear_arith)
                    requires
                        0 <= i + 1 < n,
                ;
                i + 1
            } else {
                let ghost n = images@.len() as int;
                assert((i + 1) as int % n == 0) by (nonlinear_arith)
                    requires
                        i + 1 == n,
                        n > 0,
                ;
                0
            }
        },
        None => 0,
    };
    Ok(images[next].clone())
}

/// When the recorded path is not in a non-empty image set, the first image
/// comes next.
pub proof fn lemma_unlisted_selects_first(images: Seq<Seq<char>>, c: Seq<char>)
    requires
        images.len() > 0,
        forall|i: int| 0 <= i < images.len() ==> images[i] != c,
    ensures
        next_index(images, Some(c)) == 0,
        next_index(images, None) == 0,
{
    assert(!is_listed(images, Some(c)));
}

/// When the recorded path is the image at position `i`, and no earlier
/// position holds the same path, the image at `(i + 1) mod N` comes next;
/// after the last image the first one comes next.
pub proof fn lemma_listed_advances(images: Seq<Seq<char>>, i: int)
    requires
        0 <= i < images.len(),
        forall|j: int| 0 <= j < i ==> images[j] != images[i],
    ensures
        next_index(images, Some(images[i])) == (i + 1) % (images.len() as int),
        i == images.len() - 1 ==> next_index(images, Some(images[i])) == 0,
{
    assert(is_first_match(images, images[i], i));
    let c = images[i];
    assert(exists|k: int| is_first_match(images, c, k));
    assert(Some(c)->0 == c);
    assert(is_listed(images, Some(c)));
    let k = choose|k: int| is_first_match(images, images[i], k);
    lemma_first_match_unique(images, images[i], i, k);
    let n = images.len() as int;
    if i == n - 1 {
        assert((i + 1) % n == 0) by (nonlinear_arith)
            requires
                i + 1 == n,
                n > 0,
        ;
    }
}

/// In an image set without repeated paths, recording the chosen image and
/// choosing again moves exactly one position further, wrapping round.
pub proof fn lemma_record_then_advance(images: Seq<Seq<char>>, current: Option<Seq<char>>)
    requires
        images.len() > 0,
        images.no_duplicates(),
    ensures
        0 <= next_index(images, current) < images.len(),
        next_index(images, Some(images[next_index(images, current)])) == (next_index(
            images,
            current,
        ) + 1) % (images.len() as int),
{
    let n = images.len() as int;
    if is_listed(images, current) {
        let i = choose|i: int| is_first_match(images, current->0, i);
        assert(0 <= (i + 1) % n < n) by (nonlinear_arith)
            requires
                n > 0,
        ;
    }
    let m = next_index(images, current);
    lemma_listed_advances(images, m);
}

} // verus!
