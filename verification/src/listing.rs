//! The text that `:ls` prints for a file or a directory.
//!
//! Directory entries are listed one per line, directories marked with a
//! trailing `/`, in case-insensitive order with ties broken by the exact
//! text.

use vstd::prelude::*;
use vstd::relations::sorted_by;
use vstd::string::StringExecFns;

use crate::table::joined;
use crate::text::{chars_of, push_char};

verus! {

broadcast use vstd::string::group_string_axioms;

/// The text of `s` in lower case, as `str::to_lowercase` gives it.
pub uninterp spec fn lowercase_text(s: Seq<char>) -> Seq<char>;

/// `str::to_lowercase`.
#[verifier::external_body]
fn to_lowercase(s: &str) -> (r: String)
    ensures
        r@ == lowercase_text(s@),
{
    s.to_lowercase()
}

/// `a` comes strictly before `b` in code-point order (the order of `str`).
pub open spec fn text_lt(a: Seq<char>, b: Seq<char>) -> bool
    decreases a.len(),
{
    if a.len() == 0 {
        b.len() > 0
    } else if b.len() == 0 {
        false
    } else if (a[0] as u32) < (b[0] as u32) {
        true
    } else if a[0] == b[0] {
        text_lt(a.drop_first(), b.drop_first())
    } else {
        false
    }
}

/// The order of a directory listing: by lower-case text, then by text.
pub open spec fn listing_le(a: Seq<char>, b: Seq<char>) -> bool {
    text_lt(lowercase_text(a), lowercase_text(b)) || (lowercase_text(a) == lowercase_text(b) && (
    text_lt(a, b) || a == b))
}

/// Strict code-point order is irreflexive.
pub proof fn lemma_text_lt_irreflexive(a: Seq<char>)
    ensures
        !text_lt(a, a),
    decreases a.len(),
{
    if a.len() > 0 {
        lemma_text_lt_irreflexive(a.drop_first());
    }
}

/// Strict code-point order is transitive.
pub proof fn lemma_text_lt_transitive(a: Seq<char>, b: Seq<char>, c: Seq<char>)
    requires
        text_lt(a, b),
        text_lt(b, c),
    ensures
        text_lt(a, c),
    decreases a.len(),
{
    if a.len() > 0 && b.len() > 0 && c.len() > 0 {
        if a[0] == b[0] && b[0] == c[0] {
            lemma_text_lt_transitive(a.drop_first(), b.drop_first(), c.drop_first());
        }
    }
}

/// Any two distinct texts are ordered one way or the other.
pub proof fn lemma_text_lt_total(a: Seq<char>, b: Seq<char>)
    requires
        a != b,
    ensures
        text_lt(a, b) || text_lt(b, a),
    decreases a.len(),
{
    if a.len() > 0 && b.len() > 0 {
        if a[0] == b[0] {
            if a.drop_first() == b.drop_first() {
                assert(a =~= seq![a[0]] + a.drop_first());
                assert(b =~= seq![b[0]] + b.drop_first());
            } else {
                lemma_text_lt_total(a.drop_first(), b.drop_first());
            }
        } else {
            vstd::utf8::char_u32_cast(a[0], a[0] as u32);
            vstd::utf8::char_u32_cast(b[0], b[0] as u32);
        }
    } else if a.len() == 0 && b.len() == 0 {
        assert(a =~= b);
    }
}

/// `text_lt` one way excludes the other.
pub proof fn lemma_text_lt_asymmetric(a: Seq<char>, b: Seq<char>)
    requires
        text_lt(a, b),
    ensures
        !text_lt(b, a),
{
    if text_lt(b, a) {
        lemma_text_lt_transitive(a, b, a);
        lemma_text_lt_irreflexive(a);
    }
}

/// The listing order is total.
pub proof fn lemma_listing_total(a: Seq<char>, b: Seq<char>)
    ensures
        listing_le(a, b) || listing_le(b, a),
{
    if lowercase_text(a) != lowercase_text(b) {
        lemma_text_lt_total(lowercase_text(a), lowercase_text(b));
    } else if a != b {
        lemma_text_lt_total(a, b);
    }
}

/// The listing order is transitive.
pub proof fn lemma_listing_transitive(a: Seq<char>, b: Seq<char>, c: Seq<char>)
    requires
        listing_le(a, b),
        listing_le(b, c),
    ensures
        listing_le(a, c),
{
    let (la, lb, lc) = (lowercase_text(a), lowercase_text(b), lowercase_text(c));
    if text_lt(la, lb) && text_lt(lb, lc) {
        lemma_text_lt_transitive(la, lb, lc);
    } else if text_lt(a, b) && text_lt(b, c) {
        lemma_text_lt_transitive(a, b, c);
    }
}

/// The listing order is antisymmetric: two entries that each come no
/// later than the other are the same text.
pub proof fn lemma_listing_antisymmetric(a: Seq<char>, b: Seq<char>)
    requires
        listing_le(a, b),
        listing_le(b, a),
    ensures
        a == b,
{
    let (la, lb) = (lowercase_text(a), lowercase_text(b));
    if text_lt(la, lb) {
        lemma_text_lt_asymmetric(la, lb);
        if la == lb {
            lemma_text_lt_irreflexive(la);
        }
    } else if text_lt(lb, la) {
        lemma_text_lt_asymmetric(lb, la);
        if la == lb {
            lemma_text_lt_irreflexive(la);
        }
    } else if text_lt(a, b) {
        lemma_text_lt_asymmetric(a, b);
    }
}

/// One entry of a directory.
#[derive(Debug, PartialEq, Eq)]
pub struct DirEntryName {
    pub name: String,
    pub is_dir: bool,
}

/// What `:ls` found at a path.
#[derive(Debug, PartialEq, Eq)]
pub enum PathListing {
    /// A file, by its name.
    File(String),
    /// A directory, by its entries.
    Directory(Vec<DirEntryName>),
}

/// How an entry is listed: its name, with `/` after a directory's.
pub open spec fn entry_label(e: DirEntryName) -> Seq<char> {
    if e.is_dir {
        e.name@.push('/')
    } else {
        e.name@
    }
}

/// The lines of a listing, joined, ending with a line feed unless empty.
pub open spec fn lines_text(lines: Seq<Seq<char>>) -> Seq<char> {
    if lines.len() == 0 {
        Seq::empty()
    } else {
        joined(lines, '\n') + seq!['\n']
    }
}

/// `lines` holds the labels of `entries`, in listing order.
pub open spec fn listing_lines(entries: Seq<DirEntryName>, lines: Seq<Seq<char>>) -> bool {
    &&& lines.to_multiset() == entries.map_values(|e: DirEntryName| entry_label(e)).to_multiset()
    &&& sorted_by(lines, |a: Seq<char>, b: Seq<char>| listing_le(a, b))
}

/// An entry ready for sorting.
struct SortEntry {
    label: String,
    key: Vec<char>,
    text: Vec<char>,
}

impl SortEntry {
    spec fn ok(&self) -> bool {
        &&& self.key@ == lowercase_text(self.label@)
        &&& self.text@ == self.label@
    }
}

/// `a` comes strictly before `b` in code-point order.
fn chars_lt(a: &Vec<char>, b: &Vec<char>) -> (r: bool)
    ensures
        r == text_lt(a@, b@),
{
    let mut i: usize = 0;
    assert(a@.skip(0) == a@);
    assert(b@.skip(0) == b@);
    while i < a.len() && i < b.len()
        invariant
            i <= a@.len(),
            i <= b@.len(),
            text_lt(a@, b@) == text_lt(a@.skip(i as int), b@.skip(i as int)),
            forall|j: int| 0 <= j < i ==> a@[j] == b@[j],
        decreases a@.len() - i,
    {
        if (a[i] as u32) < (b[i] as u32) {
            return true;
        }
        if a[i] != b[i] {
            proof {
                assert(a@.skip(i as int)[0] == a@[i as int]);
                assert(b@.skip(i as int)[0] == b@[i as int]);
            }
            return false;
        }
        assert(a@.skip(i as int).drop_first() == a@.skip(i + 1));
        assert(b@.skip(i as int).drop_first() == b@.skip(i + 1));
        i += 1;
    }
    i == a.len() && i < b.len()
}

/// Whether two character vectors are equal.
fn chars_eq(a: &Vec<char>, b: &Vec<char>) -> (r: bool)
    ensures
        r == (a@ == b@),
{
    if a.len() != b.len() {
        return false;
    }
    let mut i: usize = 0;
    while i < a.len()
        invariant
            i <= a@.len() == b@.len(),
            forall|j: int| 0 <= j < i ==> a@[j] == b@[j],
        decreases a@.len() - i,
    {
        if a[i] != b[i] {
            return false;
        }
        i += 1;
    }
    assert(a@ =~= b@);
    true
}

/// `a` comes strictly before `b` in the listing order.
fn entry_lt(a: &SortEntry, b: &SortEntry) -> (r: bool)
    requires
        a.ok(),
        b.ok(),
    ensures
        r == !listing_le(b.label@, a.label@),
{
    proof {
        lemma_listing_total(a.label@, b.label@);
        if listing_le(b.label@, a.label@) && listing_le(a.label@, b.label@) {
            lemma_listing_antisymmetric(a.label@, b.label@);
        }
    }
    if chars_lt(&a.key, &b.key) {
        proof {
            lemma_text_lt_asymmetric(a.key@, b.key@);
            if a.key@ == b.key@ {
                lemma_text_lt_irreflexive(a.key@);
            }
        }
        true
    } else if chars_eq(&a.key, &b.key) {
        let r = chars_lt(&a.text, &b.text);
        proof {
            if r {
                lemma_text_lt_asymmetric(a.text@, b.text@);
                if a.text@ == b.text@ {
                    lemma_text_lt_irreflexive(a.text@);
                }
            } else if a.text@ != b.text@ {
                lemma_text_lt_total(a.text@, b.text@);
            }
        }
        r
    } else {
        proof {
            lemma_text_lt_total(a.key@, b.key@);
        }
        false
    }
}

/// The labels of the sorted entries.
spec fn labels_of(v: Seq<SortEntry>) -> Seq<Seq<char>> {
    v.map_values(|e: SortEntry| e.label@)
}

/// The listing of the entries, sorted.
fn sorted_labels(entries: &Vec<DirEntryName>) -> (r: Vec<String>)
    ensures
        listing_lines(entries@, r@.map_values(|s: String| s@)),
{
    let ghost labels = entries@.map_values(|e: DirEntryName| entry_label(e));
    let ghost le = |a: Seq<char>, b: Seq<char>| listing_le(a, b);
    let mut out: Vec<SortEntry> = Vec::new();
    let mut i: usize = 0;
    assert(labels.take(0) =~= Seq::<Seq<char>>::empty());
    assert(labels_of(out@) =~= Seq::<Seq<char>>::empty());
    while i < entries.len()
        invariant
            i <= entries@.len(),
            labels == entries@.map_values(|e: DirEntryName| entry_label(e)),
            le == (|a: Seq<char>, b: Seq<char>| listing_le(a, b)),
            forall|k: int| 0 <= k < out@.len() ==> (#[trigger] out@[k]).ok(),
            labels_of(out@).to_multiset() == labels.take(i as int).to_multiset(),
            sorted_by(labels_of(out@), le),
        decreases entries@.len() - i,
    {
        let mut label = entries[i].name.clone();
        if entries[i].is_dir {
            push_char(&mut label, '/');
        }
        let key_text = to_lowercase(label.as_str());
        let item = SortEntry {
            key: chars_of(key_text.as_str()),
            text: chars_of(label.as_str()),
            label,
        };
        assert(item.label@ == labels[i as int]);
        let mut p = out.len();
        let mut placed = false;
        while p > 0 && !placed
            invariant
                p <= out@.len(),
                item.ok(),
                forall|k: int| 0 <= k < out@.len() ==> (#[trigger] out@[k]).ok(),
                forall|k: int| p <= k < out@.len() ==> !listing_le(out@[k].label@, item.label@),
                placed ==> p > 0 && listing_le(out@[p - 1].label@, item.label@),
            decreases p + if placed { 0int } else { 1int },
        {
            if entry_lt(&item, &out[p - 1]) {
                p -= 1;
            } else {
                placed = true;
            }
        }
        let ghost before = out@;
        out.insert(p, item);
        proof {
            let lb = labels_of(before);
            let la = labels_of(out@);
            assert(la =~= lb.take(p as int) + seq![labels[i as int]] + lb.skip(p as int));
            assert(lb =~= lb.take(p as int) + lb.skip(p as int));
            vstd::seq_lib::lemma_multiset_commutative(lb.take(p as int), lb.skip(p as int));
            vstd::seq_lib::lemma_multiset_commutative(
                lb.take(p as int) + seq![labels[i as int]],
                lb.skip(p as int),
            );
            vstd::seq_lib::lemma_multiset_commutative(lb.take(p as int), seq![labels[i as int]]);
            assert(labels.take(i + 1) =~= labels.take(i as int) + seq![labels[i as int]]);
            vstd::seq_lib::lemma_multiset_commutative(labels.take(i as int), seq![labels[i as int]]);
            assert forall|x: int, y: int| 0 <= x < y < la.len() implies #[trigger] le(
                la[x],
                la[y],
            ) by {
                if x < p && y == p {
                    if x < p - 1 {
                        assert(le(lb[x], lb[p - 1]));
                        lemma_listing_transitive(la[x], lb[p - 1], la[y]);
                    }
                } else if x == p && y > p {
                    assert(la[y] == before[y - 1].label@);
                    lemma_listing_total(la[x], la[y]);
                } else if x < p && y > p {
                    assert(le(lb[x], lb[y - 1]));
                } else if x > p {
                    assert(le(lb[x - 1], lb[y - 1]));
                } else {
                    assert(le(lb[x], lb[y]));
                }
            }
        }
        i += 1;
    }
    let mut r: Vec<String> = Vec::new();
    let mut k: usize = 0;
    while k < out.len()
        invariant
            k <= out@.len(),
            r@.len() == k,
            forall|j: int| 0 <= j < k ==> #[trigger] r@[j]@ == out@[j].label@,
        decreases out@.len() - k,
    {
        r.push(out[k].label.clone());
        k += 1;
    }
    proof {
        assert(r@.map_values(|s: String| s@) =~= labels_of(out@));
        assert(labels.take(entries@.len() as int) =~= labels);
    }
    r
}

/// What `:ls` prints: the file's name, or the directory's entries one per
/// line in listing order.
pub open spec fn listing_output(listing: PathListing, text: Seq<char>) -> bool {
    match listing {
        PathListing::File(name) => text == name@.push('\n'),
        PathListing::Directory(entries) => exists|lines: Seq<Seq<char>>|
            listing_lines(entries@, lines) && text == lines_text(lines),
    }
}

/// What `:ls` prints for what it found at a path.
pub fn list_repl_path(listing: PathListing) -> (r: String)
    ensures
        listing_output(listing, r@),
{
    match listing {
        PathListing::File(name) => {
            let ghost typed = name@;
            let mut out = name;
            push_char(&mut out, '\n');
            assert(out@ == typed.push('\n'));
            out
        },
        PathListing::Directory(entries) => {
            let lines = sorted_labels(&entries);
            let mut out = String::new();
            let mut i: usize = 0;
            let ghost views = lines@.map_values(|s: String| s@);
            while i < lines.len()
                invariant
                    i <= lines@.len(),
                    views == lines@.map_values(|s: String| s@),
                    out@ == joined(views.take(i as int), '\n'),
                decreases lines@.len() - i,
            {
                if i > 0 {
                    push_char(&mut out, '\n');
                }
                out.append(lines[i].as_str());
                proof {
                    assert(views.take(i + 1).drop_last() == views.take(i as int));
                    if i == 0 {
                        assert(views.take(1)[0] == views[0]);
                    }
                }
                i += 1;
            }
            assert(views.take(lines@.len() as int) == views);
            if lines.len() > 0 {
                push_char(&mut out, '\n');
            }
            assert(listing_lines(entries@, views));
            assert(out@ == lines_text(views));
            out
        },
    }
}

/// The listing order is a total order on texts.
pub proof fn lemma_listing_total_ordering()
    ensures
        vstd::relations::total_ordering(|a: Seq<char>, b: Seq<char>| listing_le(a, b)),
{
    let le = |a: Seq<char>, b: Seq<char>| listing_le(a, b);
    assert forall|x: Seq<char>| #[trigger] le(x, x) by {}
    assert forall|x: Seq<char>, y: Seq<char>| #[trigger] le(x, y) && #[trigger] le(y, x) implies x
        == y by {
        lemma_listing_antisymmetric(x, y);
    }
    assert forall|x: Seq<char>, y: Seq<char>, z: Seq<char>| #[trigger] le(x, y) && #[trigger] le(
        y,
        z,
    ) implies le(x, z) by {
        lemma_listing_transitive(x, y, z);
    }
    assert forall|x: Seq<char>, y: Seq<char>| #[trigger] le(x, y) || #[trigger] le(y, x) by {
        lemma_listing_total(x, y);
    }
}

/// A directory has exactly one listing: the contract of `list_repl_path`
/// leaves no choice in the order of the lines.
pub proof fn law_listing_is_determined(
    entries: Seq<DirEntryName>,
    a: Seq<Seq<char>>,
    b: Seq<Seq<char>>,
)
    requires
        listing_lines(entries, a),
        listing_lines(entries, b),
    ensures
        a == b,
{
    lemma_listing_total_ordering();
    vstd::seq_lib::lemma_sorted_unique(a, b, |x: Seq<char>, y: Seq<char>| listing_le(x, y));
}

} // verus!
