use std::cmp::Ordering;
use vstd::prelude::*;

verus! {

/// One visible entry of a directory listing.
#[derive(Clone, Debug, PartialEq, Eq)]
pub struct PathItem {
    pub is_directory: bool,
    pub path: String,
}

/// What `std::path::Path::extension` returns for a path.
pub uninterp spec fn extension_of(p: Seq<char>) -> Option<Seq<char>>;

/// Relies on std::path::Path::extension: the text after the last dot of the
/// file name, when there is one.
#[verifier::external_body]
fn path_extension(p: &str) -> (r: Option<String>)
    ensures
        r is Some <==> extension_of(p@) is Some,
        r is Some ==> r->Some_0@ == extension_of(p@)->Some_0,
{
    std::path::Path::new(p).extension().map(|e| e.to_string_lossy().into_owned())
}

/// A character with ASCII upper-case letters mapped to lower case.
pub open spec fn ascii_lower(c: char) -> char {
    if 'A' <= c && c <= 'Z' {
        ((c as u8) + 32) as char
    } else {
        c
    }
}

pub open spec fn ascii_lower_seq(s: Seq<char>) -> Seq<char> {
    s.map_values(|c: char| ascii_lower(c))
}

/// The image extensions a listing shows, in lower case.
pub open spec fn is_image_extension(e: Seq<char>) -> bool {
    let l = ascii_lower_seq(e);
    l == "jpeg"@ || l == "jpg"@ || l == "png"@ || l == "gif"@ || l == "webp"@
}

fn lower_char(c: char) -> (r: char)
    ensures
        r == ascii_lower(c),
{
    if 'A' <= c && c <= 'Z' {
        ((c as u8) + 32) as char
    } else {
        c
    }
}

/// Whether `e`, read without regard to ASCII case, is `lower`.
fn equals_ignoring_case(e: &str, lower: &str) -> (r: bool)
    ensures
        r == (ascii_lower_seq(e@) == lower@),
{
    let n = e.unicode_len();
    let m = lower.unicode_len();
    if n != m {
        return false;
    }
    let mut i: usize = 0;
    while i < n
        invariant
            n == e@.len(),
            m == lower@.len(),
            n == m,
            i <= n,
            forall|k: int| 0 <= k < i ==> ascii_lower(#[trigger] e@[k]) == lower@[k],
        decreases n - i,
    {
        if lower_char(e.get_char(i)) != lower.get_char(i) {
            assert(ascii_lower_seq(e@)[i as int] != lower@[i as int]);
            return false;
        }
        i += 1;
    }
    assert(ascii_lower_seq(e@) =~= lower@);
    true
}

/// Whether an extension names one of the image formats a listing shows.
pub fn is_allowed_extension(e: &str) -> (r: bool)
    ensures
        r == is_image_extension(e@),
{
    equals_ignoring_case(e, "jpeg") || equals_ignoring_case(e, "jpg") || equals_ignoring_case(
        e,
        "png",
    ) || equals_ignoring_case(e, "gif") || equals_ignoring_case(e, "webp")
}

/// What `natord::compare` returns for two strings.
pub uninterp spec fn natural_order(a: Seq<char>, b: Seq<char>) -> Ordering;

/// The same comparison seen from the other side.
pub open spec fn flipped(o: Ordering) -> Ordering {
    match o {
        Ordering::Less => Ordering::Greater,
        Ordering::Equal => Ordering::Equal,
        Ordering::Greater => Ordering::Less,
    }
}

/// Relies on natord::compare: natural order of two strings, where runs of
/// digits compare by value. Its body treats both sides alike, so swapping the
/// arguments flips the outcome.
#[verifier::external_body]
fn natural_compare(a: &str, b: &str) -> (r: Ordering)
    ensures
        r == natural_order(a@, b@),
        natural_order(b@, a@) == flipped(r),
{
    natord::compare(a, b)
}

/// Listing order: folders before files, then the natural order of the paths.
pub open spec fn item_order(a: PathItem, b: PathItem) -> Ordering {
    if a.is_directory && !b.is_directory {
        Ordering::Less
    } else if !a.is_directory && b.is_directory {
        Ordering::Greater
    } else {
        natural_order(a.path@, b.path@)
    }
}

/// `a` may stand right before `b` in a listing.
pub open spec fn precedes(a: PathItem, b: PathItem) -> bool {
    item_order(a, b) != Ordering::Greater
}

/// Each entry may stand before the next one.
pub open spec fn is_sorted(s: Seq<PathItem>) -> bool {
    forall|i: int| 0 <= i < s.len() - 1 ==> precedes(#[trigger] s[i], s[i + 1])
}

/// No file stands before a folder.
pub open spec fn directories_first(s: Seq<PathItem>) -> bool {
    forall|i: int, j: int|
        0 <= i < j < s.len() && (#[trigger] s[j]).is_directory ==> (#[trigger] s[i]).is_directory
}

fn compare_items(a: &PathItem, b: &PathItem) -> (r: Ordering)
    ensures
        r == item_order(*a, *b),
        item_order(*b, *a) == flipped(r),
{
    if a.is_directory && !b.is_directory {
        Ordering::Less
    } else if !a.is_directory && b.is_directory {
        Ordering::Greater
    } else {
        natural_compare(a.path.as_str(), b.path.as_str())
    }
}

proof fn lemma_insert_to_multiset<A>(s: Seq<A>, j: int, x: A)
    requires
        0 <= j <= s.len(),
    ensures
        s.insert(j, x).to_multiset() =~= s.to_multiset().insert(x),
{
    broadcast use vstd::seq_lib::group_to_multiset_ensures;

    let t = s.insert(j, x);
    assert(t.remove(j) =~= s);
    assert(t.contains(x)) by {
        assert(t[j] == x);
    }
    assert(t.to_multiset().count(x) > 0);
}

/// Sorts entries into listing order: the same entries, each one free to
/// stand before the next, and no file before a folder.
pub fn sort_items(items: Vec<PathItem>) -> (r: Vec<PathItem>)
    ensures
        r@.to_multiset() =~= items@.to_multiset(),
        is_sorted(r@),
        directories_first(r@),
{
    broadcast use vstd::seq_lib::group_to_multiset_ensures;

    let ghost orig = items@;
    let mut items = items;
    let mut out: Vec<PathItem> = Vec::new();
    while items.len() > 0
        invariant
            out@.to_multiset().add(items@.to_multiset()) =~= orig.to_multiset(),
            is_sorted(out@),
            directories_first(out@),
        decreases items.len(),
    {
        let ghost before = items@;
        let x = items.pop().unwrap();
        assert(before =~= items@.push(x));
        proof {
            vstd::seq_lib::to_multiset_build(items@, x);
        }
        let mut j: usize = 0;
        while j < out.len()
            invariant
                j <= out.len(),
                j > 0 ==> item_order(out@[j - 1], x) == Ordering::Less,
            ensures
                j <= out.len(),
                j > 0 ==> item_order(out@[j - 1], x) == Ordering::Less,
                j < out.len() ==> item_order(x, out@[j as int]) != Ordering::Greater,
            decreases out.len() - j,
        {
            let c = compare_items(&out[j], &x);
            if !matches!(c, Ordering::Less) {
                break;
            }
            j += 1;
        }
        let ghost prev = out@;
        proof {
            lemma_insert_to_multiset(prev, j as int, x);
        }
        out.insert(j, x);
        assert(out@ =~= prev.insert(j as int, x));
        assert(out@.to_multiset() =~= prev.to_multiset().insert(x));
        assert(is_sorted(out@)) by {
            assert forall|i: int| 0 <= i < out@.len() - 1 implies precedes(
                #[trigger] out@[i],
                out@[i + 1],
            ) by {
                if i + 1 < j {
                    assert(precedes(prev[i], prev[i + 1]));
                } else if i > j {
                    assert(precedes(prev[i - 1], prev[i]));
                }
            }
        }
        assert(directories_first(out@)) by {
            let jj = j as int;
            assert(jj < prev.len() ==> item_order(x, prev[jj]) != Ordering::Greater);
            assert forall|p: int, q: int|
                0 <= p < q < out@.len() && (#[trigger] out@[q]).is_directory implies (
                #[trigger] out@[p]).is_directory by {
                if q == jj {
                    if p < jj - 1 {
                        assert(prev[jj - 1].is_directory);
                    }
                } else if p == jj {
                    if q - 1 > jj {
                        assert(prev[q - 1].is_directory);
                        assert(prev[jj].is_directory);
                    }
                } else if p < jj && q > jj {
                    assert(prev[q - 1].is_directory);
                } else if p > jj {
                    assert(prev[q - 1].is_directory);
                }
            }
        }
    }
    out
}

/// In a sorted listing, two neighbours of the same kind, both folders or
/// both files, stand in the natural order of their paths.
pub proof fn lemma_same_kind_in_natural_order(s: Seq<PathItem>)
    requires
        is_sorted(s),
    ensures
        forall|i: int|
            0 <= i < s.len() - 1 && (#[trigger] s[i]).is_directory == s[i + 1].is_directory
                ==> natural_order(s[i].path@, s[i + 1].path@) != Ordering::Greater,
{
    assert forall|i: int|
        0 <= i < s.len() - 1 && (#[trigger] s[i]).is_directory == s[i + 1].is_directory
            implies natural_order(s[i].path@, s[i + 1].path@) != Ordering::Greater by {
        assert(precedes(s[i], s[i + 1]));
    }
}

/// Whether a listing shows an entry: every folder, and the files whose
/// extension names an image format.
pub open spec fn is_shown(item: PathItem) -> bool {
    item.is_directory || (extension_of(item.path@) is Some && is_image_extension(
        extension_of(item.path@)->Some_0,
    ))
}

/// The entries of a scan that were read and are shown, in scan order.
pub open spec fn shown_entries(scan: Seq<Option<PathItem>>) -> Seq<PathItem>
    decreases scan.len(),
{
    if scan.len() == 0 {
        Seq::empty()
    } else {
        let rest = shown_entries(scan.drop_last());
        let last = scan.last();
        if last is Some && is_shown(last->Some_0) {
            rest.push(last->Some_0)
        } else {
            rest
        }
    }
}

proof fn lemma_shown_entries_contains(scan: Seq<Option<PathItem>>, x: PathItem)
    ensures
        shown_entries(scan).contains(x) <==> (is_shown(x) && scan.contains(Some(x))),
    decreases scan.len(),
{
    if scan.len() > 0 {
        let init = scan.drop_last();
        lemma_shown_entries_contains(init, x);
        assert(scan =~= init.push(scan.last()));
        if scan.contains(Some(x)) {
            let k = choose|k: int| 0 <= k < scan.len() && scan[k] == Some(x);
            if k < scan.len() - 1 {
                assert(init[k] == Some(x));
            }
        }
        if init.contains(Some(x)) {
            let k = choose|k: int| 0 <= k < init.len() && init[k] == Some(x);
            assert(scan[k] == Some(x));
        }
        let rest = shown_entries(init);
        if scan.last() is Some && is_shown(scan.last()->Some_0) {
            assert(rest.push(scan.last()->Some_0).last() == scan.last()->Some_0);
            if rest.contains(x) {
                let k = choose|k: int| 0 <= k < rest.len() && rest[k] == x;
                assert(rest.push(scan.last()->Some_0)[k] == x);
            }
            if rest.push(scan.last()->Some_0).contains(x) {
                let k = choose|k: int|
                    0 <= k < rest.len() + 1 && rest.push(scan.last()->Some_0)[k] == x;
                if k < rest.len() {
                    assert(rest[k] == x);
                }
            }
        }
    }
}

fn copy_item(item: &PathItem) -> (r: PathItem)
    ensures
        r == *item,
{
    PathItem { is_directory: item.is_directory, path: item.path.clone() }
}

fn shows(item: &PathItem) -> (r: bool)
    ensures
        r == is_shown(*item),
{
    if item.is_directory {
        true
    } else {
        match path_extension(item.path.as_str()) {
            Some(e) => is_allowed_extension(e.as_str()),
            None => false,
        }
    }
}

/// Builds a listing from a scan of one directory. `None` stands for a
/// directory that could not be read, which lists as empty; a `None` entry is
/// one that could not be read, and is left out. Folders are all kept, files
/// only when their extension names an image format, and the result is in
/// listing order.
pub fn get_path_items(scan: Option<Vec<Option<PathItem>>>) -> (r: Vec<PathItem>)
    ensures
        scan is None ==> r@.len() == 0,
        scan is Some ==> r@.to_multiset() =~= shown_entries(scan->Some_0@).to_multiset(),
        forall|x: PathItem|
            #[trigger] r@.contains(x) <==> (scan is Some && is_shown(x) && scan->Some_0@.contains(
                Some(x),
            )),
        is_sorted(r@),
        directories_first(r@),
{
    broadcast use vstd::seq_lib::group_to_multiset_ensures;

    let entries = match scan {
        None => {
            return Vec::new();
        },
        Some(entries) => entries,
    };
    let mut kept: Vec<PathItem> = Vec::new();
    let mut i: usize = 0;
    while i < entries.len()
        invariant
            i <= entries.len(),
            kept@ == shown_entries(entries@.subrange(0, i as int)),
        decreases entries.len() - i,
    {
        assert(entries@.subrange(0, i + 1).drop_last() =~= entries@.subrange(0, i as int));
        match &entries[i] {
            Some(item) => {
                if shows(item) {
                    kept.push(copy_item(item));
                }
            },
            None => {},
        }
        i += 1;
    }
    assert(entries@.subrange(0, entries.len() as int) =~= entries@);
    let r = sort_items(kept);
    assert forall|x: PathItem| #[trigger] r@.contains(x) <==> (is_shown(x) && entries@.contains(
        Some(x),
    )) by {
        lemma_shown_entries_contains(entries@, x);
        assert(r@.contains(x) <==> r@.to_multiset().count(x) > 0);
        assert(kept@.contains(x) <==> kept@.to_multiset().count(x) > 0);
    }
    r
}

/// What `std::path::Path::parent` returns for a path.
pub uninterp spec fn parent_of(p: Seq<char>) -> Option<Seq<char>>;

/// Relies on std::path::Path::parent: the path without its last component,
/// or nothing where the path ends in a root; `/` is such a path.
#[verifier::external_body]
fn path_parent(p: &str) -> (r: Option<String>)
    ensures
        r is Some <==> parent_of(p@) is Some,
        r is Some ==> r->Some_0@ == parent_of(p@)->Some_0,
        p@ == seq!['/'] ==> r is None,
{
    std::path::Path::new(p).parent().map(|q| q.to_string_lossy().into_owned())
}

/// The parent of a path, or the path itself where it has none.
pub open spec fn parent_or_self(p: Seq<char>) -> Seq<char> {
    match parent_of(p) {
        Some(q) => q,
        None => p,
    }
}

/// The folder that holds `path`; a root is its own parent.
pub fn get_parent(path: &str) -> (r: String)
    ensures
        r@ == parent_or_self(path@),
{
    match path_parent(path) {
        Some(q) => q,
        None => path.to_string(),
    }
}

/// The directory a listing of `base_path` shows: the folder that holds it
/// when it names a file, else the path itself, so that a path that names
/// nothing is read as a directory and lists as empty.
pub fn listing_target(base_path: &str, is_file: bool) -> (r: String)
    ensures
        r@ == (if is_file {
            parent_or_self(base_path@)
        } else {
            base_path@
        }),
{
    if is_file {
        get_parent(base_path)
    } else {
        base_path.to_string()
    }
}

/// A root, a path without a parent, is a fixed point of `get_parent`.
pub proof fn lemma_root_is_own_parent(p: Seq<char>)
    requires
        parent_of(p) is None,
    ensures
        parent_or_self(p) == p,
        parent_or_self(parent_or_self(p)) == p,
{
}

} // verus!
