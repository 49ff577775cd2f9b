//! The file explorer of the Storage tab: a directory listing with the
//! directories first, a selected row, and a window of rows on screen.
use vstd::prelude::*;
use vstd::string::StringExecFns;
use crate::text::{chars_of, lex_lt, less_than, lowercase, to_lowercase};

verus! {

/// One row of a directory listing.
pub struct FileEntry {
    pub name: String,
    pub path: String,
    pub is_dir: bool,
    pub size: u64,
    pub count: usize,
}

/// A directory listing with a selected row and the first row on screen.
pub struct FileExplorer {
    pub current_path: String,
    pub items: Vec<FileEntry>,
    pub selected: usize,
    pub offset: usize,
    pub focused: bool,
}

/// `a` sorts strictly before `b`: directories before files, then by the
/// lower-cased name.
pub open spec fn entry_lt(a: FileEntry, b: FileEntry) -> bool {
    ||| a.is_dir && !b.is_dir
    ||| a.is_dir == b.is_dir && lex_lt(lowercase(a.name@), lowercase(b.name@))
}

/// `r` with `x` placed after every row that does not sort after it.
pub open spec fn insert_entry(r: Seq<FileEntry>, x: FileEntry) -> Seq<FileEntry>
    decreases r.len(),
{
    if r.len() == 0 {
        seq![x]
    } else if entry_lt(x, r[0]) {
        seq![x] + r
    } else {
        seq![r[0]] + insert_entry(r.drop_first(), x)
    }
}

/// The rows of `s` in the order the explorer shows them: a stable sort by
/// `entry_lt`, rows that tie keeping their order in `s`.
pub open spec fn sorted_entries(s: Seq<FileEntry>) -> Seq<FileEntry>
    decreases s.len(),
{
    if s.len() == 0 {
        seq![]
    } else {
        insert_entry(sorted_entries(s.drop_last()), s.last())
    }
}

proof fn lemma_insert_entry_at(r: Seq<FileEntry>, x: FileEntry, k: int)
    requires
        0 <= k <= r.len(),
        forall|j: int| 0 <= j < k ==> !entry_lt(x, #[trigger] r[j]),
        k < r.len() ==> entry_lt(x, r[k]),
    ensures
        insert_entry(r, x) == r.insert(k, x),
    decreases r.len(),
{
    if r.len() == 0 {
        assert(r.insert(k, x) =~= seq![x]);
    } else if k == 0 {
        assert(seq![x] + r =~= r.insert(0, x));
    } else {
        assert forall|j: int| 0 <= j < k - 1 implies !entry_lt(x, #[trigger] r.drop_first()[j]) by {
            assert(r.drop_first()[j] == r[j + 1]);
        }
        lemma_insert_entry_at(r.drop_first(), x, k - 1);
        assert(seq![r[0]] + r.drop_first().insert(k - 1, x) =~= r.insert(k, x));
    }
}

proof fn lemma_lex_lt_asym(a: Seq<char>, b: Seq<char>)
    ensures
        lex_lt(a, b) ==> !lex_lt(b, a),
    decreases a.len(),
{
    if a.len() > 0 && b.len() > 0 && a[0] == b[0] {
        lemma_lex_lt_asym(a.drop_first(), b.drop_first());
    }
}

proof fn lemma_lex_lt_trans(a: Seq<char>, b: Seq<char>, c: Seq<char>)
    ensures
        lex_lt(a, b) && lex_lt(b, c) ==> lex_lt(a, c),
    decreases a.len(),
{
    if a.len() > 0 && b.len() > 0 && c.len() > 0 && a[0] == b[0] && b[0] == c[0] {
        lemma_lex_lt_trans(a.drop_first(), b.drop_first(), c.drop_first());
    }
}

proof fn lemma_entry_lt_order(a: FileEntry, b: FileEntry, c: FileEntry)
    ensures
        entry_lt(a, b) ==> !entry_lt(b, a),
        entry_lt(a, b) && entry_lt(b, c) ==> entry_lt(a, c),
{
    lemma_lex_lt_asym(lowercase(a.name@), lowercase(b.name@));
    lemma_lex_lt_trans(lowercase(a.name@), lowercase(b.name@), lowercase(c.name@));
}

/// No row of `r` sorts strictly before a row above it.
pub open spec fn is_sorted(r: Seq<FileEntry>) -> bool {
    forall|i: int, j: int| 0 <= i < j < r.len() ==> !entry_lt(#[trigger] r[j], #[trigger] r[i])
}

proof fn lemma_insert_entry_multiset(r: Seq<FileEntry>, x: FileEntry)
    ensures
        insert_entry(r, x).to_multiset() == r.to_multiset().insert(x),
    decreases r.len(),
{
    broadcast use vstd::seq_lib::group_to_multiset_ensures;
    broadcast use vstd::multiset::group_multiset_axioms;

    if r.len() == 0 {
        assert(seq![x] =~= Seq::<FileEntry>::empty().push(x));
        assert(Seq::<FileEntry>::empty().to_multiset() =~= vstd::multiset::Multiset::<FileEntry>::empty());
    } else if entry_lt(x, r[0]) {
        assert(seq![x] + r =~= r.insert(0, x));
    } else {
        let t = insert_entry(r.drop_first(), x);
        lemma_insert_entry_multiset(r.drop_first(), x);
        assert(seq![r[0]] + t =~= t.insert(0, r[0]));
        assert(r =~= r.drop_first().insert(0, r[0]));
        assert(t.insert(0, r[0]).to_multiset() =~= r.to_multiset().insert(x));
    }
}

proof fn lemma_insert_entry_sorted(r: Seq<FileEntry>, x: FileEntry)
    requires
        is_sorted(r),
    ensures
        is_sorted(insert_entry(r, x)),
    decreases r.len(),
{
    broadcast use vstd::seq_lib::group_to_multiset_ensures;
    broadcast use vstd::multiset::group_multiset_axioms;

    let t = insert_entry(r, x);
    if r.len() == 0 {
    } else if entry_lt(x, r[0]) {
        assert forall|i: int, j: int| 0 <= i < j < t.len() implies !entry_lt(
            #[trigger] t[j],
            #[trigger] t[i],
        ) by {
            if i == 0 {
                assert(t[j] == r[j - 1]);
                lemma_entry_lt_order(r[j - 1], x, r[0]);
                if j - 1 > 0 {
                    assert(!entry_lt(r[j - 1], r[0]));
                }
            } else {
                assert(t[i] == r[i - 1] && t[j] == r[j - 1]);
            }
        }
    } else {
        let rest = r.drop_first();
        let u = insert_entry(rest, x);
        assert(is_sorted(rest)) by {
            assert forall|i: int, j: int| 0 <= i < j < rest.len() implies !entry_lt(
                #[trigger] rest[j],
                #[trigger] rest[i],
            ) by {
                assert(rest[i] == r[i + 1] && rest[j] == r[j + 1]);
            }
        }
        lemma_insert_entry_sorted(rest, x);
        lemma_insert_entry_multiset(rest, x);
        assert(t == seq![r[0]] + u);
        assert forall|i: int, j: int| 0 <= i < j < t.len() implies !entry_lt(
            #[trigger] t[j],
            #[trigger] t[i],
        ) by {
            if i == 0 {
                let y = u[j - 1];
                assert(t[j] == y);
                assert(u.contains(y));
                assert(u.to_multiset().count(y) > 0);
                if y != x {
                    assert(rest.to_multiset().count(y) > 0);
                    assert(rest.contains(y));
                    let k = choose|k: int| 0 <= k < rest.len() && rest[k] == y;
                    assert(r[k + 1] == y);
                }
            } else {
                assert(t[i] == u[i - 1] && t[j] == u[j - 1]);
            }
        }
    }
}

/// The explorer's order puts no row before a row that sorts strictly before it.
pub proof fn lemma_sorted_entries_sorted(s: Seq<FileEntry>)
    ensures
        is_sorted(sorted_entries(s)),
    decreases s.len(),
{
    if s.len() > 0 {
        lemma_sorted_entries_sorted(s.drop_last());
        lemma_insert_entry_sorted(sorted_entries(s.drop_last()), s.last());
    }
}

/// A sorted listing puts every directory before every file, and among rows of
/// one kind the lower-cased names never step back in string order.
pub proof fn lemma_sorted_listing_order(s: Seq<FileEntry>)
    ensures
        forall|i: int, j: int|
            0 <= i < j < sorted_entries(s).len() ==> (!(#[trigger] sorted_entries(s)[i]).is_dir
                ==> !(#[trigger] sorted_entries(s)[j]).is_dir) && (sorted_entries(s)[i].is_dir
                == sorted_entries(s)[j].is_dir ==> !lex_lt(
                lowercase(sorted_entries(s)[j].name@),
                lowercase(sorted_entries(s)[i].name@),
            )),
{
    lemma_sorted_entries_sorted(s);
}

/// Sorting a listing neither loses nor adds rows: the result holds the same rows,
/// as many times each.
pub proof fn lemma_sorted_entries_permutation(s: Seq<FileEntry>)
    ensures
        sorted_entries(s).to_multiset() == s.to_multiset(),
        sorted_entries(s).len() == s.len(),
    decreases s.len(),
{
    broadcast use vstd::seq_lib::group_to_multiset_ensures;

    if s.len() == 0 {
    } else {
        lemma_sorted_entries_permutation(s.drop_last());
        lemma_insert_entry_multiset(sorted_entries(s.drop_last()), s.last());
        assert(s.drop_last().push(s.last()) =~= s);
    }
    vstd::seq_lib::to_multiset_len(s);
    vstd::seq_lib::to_multiset_len(sorted_entries(s));
}

/// The lower-cased name of an entry, by which rows are ordered.
fn sort_key(e: &FileEntry) -> (k: Vec<char>)
    ensures
        k@ == lowercase(e.name@),
{
    let l = to_lowercase(e.name.as_str());
    chars_of(l.as_str())
}

/// The rows of a directory listing in the order the explorer shows them.
pub fn sort_listing(entries: Vec<FileEntry>) -> (r: Vec<FileEntry>)
    ensures
        r@ == sorted_entries(entries@),
{
    let ghost orig = entries@;
    let n = entries.len();
    let mut rest = entries;
    let mut out: Vec<FileEntry> = Vec::new();
    let mut keys: Vec<Vec<char>> = Vec::new();
    let mut k: usize = 0;
    assert(orig.take(0) =~= Seq::<FileEntry>::empty());
    assert(orig.skip(0) =~= orig);
    while rest.len() > 0
        invariant
            k <= orig.len(),
            n == orig.len(),
            rest@ == orig.skip(k as int),
            out@ == sorted_entries(orig.take(k as int)),
            keys@.len() == out@.len(),
            forall|i: int| 0 <= i < out@.len() ==> (#[trigger] keys@[i])@ == lowercase(out@[i].name@),
        decreases rest@.len(),
    {
        let x = rest.remove(0);
        assert(x == orig[k as int]);
        assert(rest@ =~= orig.skip(k + 1));
        let xk = sort_key(&x);
        let mut pos: usize = 0;
        while pos < out.len() && !(x.is_dir && !out[pos].is_dir || x.is_dir == out[pos].is_dir
            && less_than(xk.as_slice(), keys[pos].as_slice()))
            invariant
                pos <= out@.len(),
                keys@.len() == out@.len(),
                forall|i: int| 0 <= i < out@.len() ==> (#[trigger] keys@[i])@ == lowercase(out@[i].name@),
                xk@ == lowercase(x.name@),
                forall|j: int| 0 <= j < pos ==> !entry_lt(x, #[trigger] out@[j]),
            decreases out@.len() - pos,
        {
            pos = pos + 1;
        }
        proof {
            lemma_insert_entry_at(out@, x, pos as int);
            assert(orig.take(k + 1).drop_last() =~= orig.take(k as int));
            assert(orig.take(k + 1).last() == x);
        }
        let ghost old_out = out@;
        let ghost old_keys = keys@;
        out.insert(pos, x);
        keys.insert(pos, xk);
        assert forall|i: int| 0 <= i < out@.len() implies (#[trigger] keys@[i])@ == lowercase(
            out@[i].name@,
        ) by {
            if i < pos {
                assert(keys@[i] == old_keys[i]);
                assert(out@[i] == old_out[i]);
            } else if i > pos {
                assert(keys@[i] == old_keys[i - 1]);
                assert(out@[i] == old_out[i - 1]);
            }
        }
        k = k + 1;
    }
    assert(orig.take(k as int) =~= orig);
    out
}


/// Whether `p` starts a component of the path `s` at index `i`.
pub open spec fn starts_component(s: Seq<char>, i: int) -> bool {
    0 <= i < s.len() && (i == 0 || s[i - 1] == '/') && s[i] != '/'
}

/// Whether the component of `s` that starts at `i` is `.`, which paths
/// normalise away.
pub open spec fn dot_component(s: Seq<char>, i: int) -> bool {
    s[i] == '.' && (i + 1 == s.len() || s[i + 1] == '/')
}

/// Whether `s` begins with a drive (`C:`), the one prefix a Windows path can
/// have without a `\`.
pub open spec fn drive_prefix(s: Seq<char>) -> bool {
    &&& s.len() >= 2
    &&& s[1] == ':'
    &&& (('a' <= s[0] && s[0] <= 'z') || ('A' <= s[0] && s[0] <= 'Z'))
}

/// A path read the same way on every platform: one or more components
/// (`..` among them) separated by single `/`, maybe after a leading `/`, with
/// no trailing `/`, no `.` component, no `\`, and no drive prefix.
pub open spec fn plain_path(s: Seq<char>) -> bool {
    &&& s.len() > 0
    &&& s.last() != '/'
    &&& forall|i: int| 0 <= i < s.len() ==> #[trigger] s[i] != '\\'
    &&& !drive_prefix(s)
    &&& forall|i: int| 0 <= i < s.len() - 1 ==> !(#[trigger] s[i] == '/' && s[i + 1] == '/')
    &&& forall|i: int| #[trigger] starts_component(s, i) ==> !dot_component(s, i)
}

/// The index of the last `/` in `s`.
pub open spec fn last_slash(s: Seq<char>) -> Option<int>
    decreases s.len(),
{
    if s.len() == 0 {
        None
    } else if s.last() == '/' {
        Some(s.len() - 1)
    } else {
        last_slash(s.drop_last())
    }
}

/// The parent of a plain path: the text before its last `/`, or `/` where
/// that is the leading `/`, or the empty path where it has no `/`.
pub open spec fn plain_parent(s: Seq<char>) -> Seq<char> {
    match last_slash(s) {
        Some(k) => if k == 0 {
            seq!['/']
        } else {
            s.take(k)
        },
        None => seq![],
    }
}

/// A name that is one path component on every platform: not empty, not `.`,
/// and without `/` or `\`.
pub open spec fn plain_name(n: Seq<char>) -> bool {
    &&& n.len() > 0
    &&& n != seq!['.']
    &&& forall|i: int| 0 <= i < n.len() ==> #[trigger] n[i] != '/' && n[i] != '\\'
}

/// The path of the entry `name` in the directory `dir` (`Path::join`).
pub open spec fn child_path(dir: Seq<char>, name: Seq<char>) -> Seq<char> {
    if dir == seq!['/'] {
        dir + name
    } else {
        dir + seq!['/'] + name
    }
}

proof fn lemma_last_slash_skips(s: Seq<char>, t: Seq<char>)
    requires
        forall|i: int| 0 <= i < t.len() ==> #[trigger] t[i] != '/',
    ensures
        last_slash(s + t) == last_slash(s),
    decreases t.len(),
{
    if t.len() > 0 {
        assert((s + t).drop_last() =~= s + t.drop_last());
        assert((s + t).last() == t.last());
        lemma_last_slash_skips(s, t.drop_last());
    } else {
        assert(s + t =~= s);
    }
}

/// A plain entry of a plain directory (or of `/`) has a plain path whose
/// parent is that directory: its `..` row leads back.
pub proof fn lemma_child_parent(dir: Seq<char>, name: Seq<char>)
    requires
        plain_path(dir) || dir == seq!['/'],
        plain_name(name),
    ensures
        plain_path(child_path(dir, name)),
        plain_parent(child_path(dir, name)) == dir,
{
    let c = child_path(dir, name);
    let head = if dir == seq!['/'] { dir } else { dir + seq!['/'] };
    assert(c =~= head + name);
    assert(last_slash(head) == Some(head.len() - 1)) by {
        assert(head.last() == '/');
    }
    lemma_last_slash_skips(head, name);
    if dir != seq!['/'] {
        assert(c.take(dir.len() as int) =~= dir);
    }
    let h = head.len() as int;
    assert forall|i: int| 0 <= i < c.len() implies #[trigger] c[i] != '\\' by {
        if i >= h {
            assert(c[i] == name[i - h]);
        } else if i < dir.len() {
            assert(c[i] == dir[i]);
        }
    }
    assert(!drive_prefix(c)) by {
        if dir == seq!['/'] {
            assert(c[0] == '/');
        } else {
            assert(c[0] == dir[0]);
            if dir.len() >= 2 {
                assert(c[1] == dir[1]);
            } else {
                assert(c[1] == '/');
            }
        }
    }
    assert forall|i: int| 0 <= i < c.len() - 1 implies !(#[trigger] c[i] == '/' && c[i + 1] == '/') by {
        if i >= h {
            assert(c[i] == name[i - h]);
        } else if i + 1 >= h {
            assert(c[i + 1] == name[i + 1 - h]);
        } else if i + 1 < dir.len() {
            assert(c[i] == dir[i] && c[i + 1] == dir[i + 1]);
        } else {
            assert(c[i] == dir[i]);
            assert(dir[i] == dir.last());
        }
    }
    assert forall|i: int| #[trigger] starts_component(c, i) implies !dot_component(c, i) by {
        if i >= h {
            assert(c[i] == name[i - h]);
            if i + 1 < c.len() {
                assert(c[i + 1] == name[i + 1 - h]);
            }
            if i > h {
                assert(c[i - 1] == name[i - 1 - h]);
            }
            if i == h && dot_component(c, i) {
                assert(name =~= seq!['.']);
            }
        } else {
            assert(dir != seq!['/']);
            assert(i < dir.len());
            assert(c[i] == dir[i]);
            if i > 0 {
                assert(c[i - 1] == dir[i - 1]);
            }
            assert(starts_component(dir, i));
            if i + 1 < dir.len() {
                assert(c[i + 1] == dir[i + 1]);
            }
            if i + 1 == dir.len() {
                assert(c[i + 1] == '/');
            }
        }
    }
}

/// Opening the selected directory row whose path is a plain entry of the
/// current plain directory (or of `/`) leads to a directory whose `..` row,
/// once read (`refresh`), leads back to where it started.
pub proof fn lemma_enter_then_up(e: FileExplorer, name: Seq<char>)
    requires
        opens_dir(e),
        plain_path(e.current_path@) || e.current_path@ == seq!['/'],
        plain_name(name),
        e.items@[e.selected as int].path@ == child_path(e.current_path@, name),
    ensures
        plain_path(explorer_enter(e).current_path@),
        plain_parent(explorer_enter(e).current_path@) == e.current_path@,
{
    lemma_child_parent(e.current_path@, name);
}

/// `Path::parent` of the path `p`, as text: the path without its final
/// component, so a shorter beginning of `p`; none for the empty path and for a
/// path that ends in a root, such as `/`. For a plain path, which every
/// platform splits at its `/` alone and whose last component (`..` too) stays
/// as written, the result is the text before the last `/` (`/` where that is
/// the leading one, empty where there is none). Where `\` separates on one
/// platform and not on another, where a drive prefix may begin the path, and
/// where `.` or repeated or trailing `/` are normalised away, no more is stated
/// of where `p` is cut.
#[verifier::external_body]
fn parent_path(p: &str) -> (r: Option<String>)
    ensures
        p@.len() == 0 ==> r is None,
        p@ == seq!['/'] ==> r is None,
        r matches Some(q) ==> is_above(q@, p@),
        plain_path(p@) ==> r is Some && r.unwrap()@ == plain_parent(p@),
{
    std::path::Path::new(p).parent().map(|q| q.to_string_lossy().into_owned())
}

/// `q` is a shorter beginning of the path `p`.
pub open spec fn is_above(q: Seq<char>, p: Seq<char>) -> bool {
    q.len() < p.len() && p.take(q.len() as int) == q
}

/// The path the `..` row leads to: the parent directory, or the directory itself
/// where it has none.
pub open spec fn up_path(parent: Option<String>, current: String) -> String {
    match parent {
        Some(p) => p,
        None => current,
    }
}

/// The rows of a fresh listing are the `..` row, then the entries read (when the
/// directory could be read) in sorted order.
pub open spec fn listing_rows(items: Seq<FileEntry>, listing: Option<Seq<FileEntry>>) -> bool {
    &&& items.len() >= 1
    &&& items[0].name@ == ".."@
    &&& items[0].is_dir
    &&& items[0].size == 0
    &&& items[0].count == 0
    &&& match listing {
        Some(l) => items.skip(1) == sorted_entries(l),
        None => items.len() == 1,
    }
}

/// The first row on screen after scrolling so that the selected row shows
/// among `max` rows.
pub open spec fn scrolled_offset(selected: int, offset: int, max: int) -> int {
    if selected < offset {
        selected
    } else if selected >= offset + max {
        selected + 1 - max
    } else {
        offset
    }
}

/// The explorer after moving the selection one row up, where there is a row above.
pub open spec fn explorer_up(e: FileExplorer) -> FileExplorer {
    FileExplorer {
        selected: if e.selected > 0 {
            (e.selected - 1) as usize
        } else {
            e.selected
        },
        ..e
    }
}

/// The explorer after moving the selection one row down, where there is a row below.
pub open spec fn explorer_down(e: FileExplorer) -> FileExplorer {
    FileExplorer {
        selected: if e.selected + 1 < e.items@.len() {
            (e.selected + 1) as usize
        } else {
            e.selected
        },
        ..e
    }
}

/// The selected row is a directory, which `enter` opens.
pub open spec fn opens_dir(e: FileExplorer) -> bool {
    e.selected < e.items@.len() && e.items@[e.selected as int].is_dir
}

/// The explorer after opening the selected row: where it is a directory, that
/// directory becomes the current one, with the top row selected and on screen.
pub open spec fn explorer_enter(e: FileExplorer) -> FileExplorer {
    if opens_dir(e) {
        FileExplorer { current_path: e.items@[e.selected as int].path, selected: 0, offset: 0, ..e }
    } else {
        e
    }
}

/// Scrolling keeps the selected row on screen: where at least one row shows, the
/// selected row lies within the `max` rows from the new first row on screen.
pub proof fn lemma_scroll_shows_selected(selected: int, offset: int, max: int)
    requires
        0 <= selected,
        0 <= offset,
        max > 0,
    ensures
        0 <= scrolled_offset(selected, offset, max) <= selected,
        selected < scrolled_offset(selected, offset, max) + max,
{
}

/// A selection that stays put keeps the first row on screen where it is.
pub proof fn lemma_scroll_stays(selected: int, offset: int, max: int)
    requires
        offset <= selected < offset + max,
    ensures
        scrolled_offset(selected, offset, max) == offset,
{
}

impl FileExplorer {
    /// The selected row exists.
    pub open spec fn wf(self) -> bool {
        self.selected < self.items@.len()
    }

    /// Replaces the rows with the `..` row (leading to `parent`, or to the
    /// current directory where `parent` is `None`) and the listing, sorted.
    pub fn refresh_with_parent(&mut self, parent: Option<String>, listing: Option<Vec<FileEntry>>)
        ensures
            listing_rows(
                final(self).items@,
                match listing {
                    Some(l) => Some(l@),
                    None => None,
                },
            ),
            final(self).items@[0].path == up_path(parent, old(self).current_path),
            final(self).current_path == old(self).current_path,
            final(self).selected == old(self).selected,
            final(self).offset == old(self).offset,
            final(self).focused == old(self).focused,
    {
        let path = match parent {
            Some(p) => p,
            None => self.current_path.clone(),
        };
        let mut items: Vec<FileEntry> = Vec::new();
        items.push(FileEntry { name: String::from_str(".."), path, is_dir: true, size: 0, count: 0 });
        match listing {
            Some(l) => {
                let mut sorted = sort_listing(l);
                let ghost s = sorted@;
                items.append(&mut sorted);
                assert(items@.skip(1) =~= s);
            },
            None => {},
        }
        self.items = items;
    }

    /// Replaces the rows with the `..` row, leading to the parent directory, and
    /// the listing read from the current directory (`None` where it could not be
    /// read), sorted.
    pub fn refresh(&mut self, listing: Option<Vec<FileEntry>>)
        ensures
            listing_rows(
                    final(self).items@,
                    match listing {
                        Some(l) => Some(l@),
                        None => None,
                    },
                ),
            final(self).items@[0].path@ == old(self).current_path@ || is_above(
                final(self).items@[0].path@,
                old(self).current_path@,
            ),
            old(self).current_path@ == seq!['/'] ==> final(self).items@[0].path == old(
                self,
            ).current_path,
            plain_path(old(self).current_path@) ==> final(self).items@[0].path@ == plain_parent(
                old(self).current_path@,
            ),
            final(self).current_path == old(self).current_path,
            final(self).selected == old(self).selected,
            final(self).offset == old(self).offset,
            final(self).focused == old(self).focused,
    {
        let parent = parent_path(self.current_path.as_str());
        self.refresh_with_parent(parent, listing);
    }

    /// An unfocused explorer of `start`, on its first row, whose rows are the `..`
    /// row and `listing` (what was read from `start`, or `None`), sorted.
    pub fn new(start: &str, listing: Option<Vec<FileEntry>>) -> (fe: Self)
        ensures
            fe.current_path@ == start@,
            listing_rows(
                    fe.items@,
                    match listing {
                        Some(l) => Some(l@),
                        None => None,
                    },
                ),
            fe.items@[0].path@ == start@ || is_above(fe.items@[0].path@, start@),
            start@ == seq!['/'] ==> fe.items@[0].path@ == start@,
            plain_path(start@) ==> fe.items@[0].path@ == plain_parent(start@),
            fe.selected == 0,
            fe.offset == 0,
            !fe.focused,
            fe.wf(),
    {
        let mut fe = FileExplorer {
            current_path: String::from_str(start),
            items: Vec::new(),
            selected: 0,
            offset: 0,
            focused: false,
        };
        fe.refresh(listing);
        fe
    }

    /// Selects the row above, if there is one.
    pub fn up(&mut self)
        ensures
            *final(self) == explorer_up(*old(self)),
    {
        if self.selected > 0 {
            self.selected -= 1;
        }
    }

    /// Selects the row below, if there is one.
    pub fn down(&mut self)
        ensures
            *final(self) == explorer_down(*old(self)),
    {
        if self.selected < self.items.len() && self.selected + 1 < self.items.len() {
            self.selected += 1;
        }
    }

    /// Opens the selected row if it is a directory: it becomes the current
    /// directory, with its first row selected and on top. Returns whether it did;
    /// the rows must then be read anew from the current directory (`refresh`).
    pub fn enter(&mut self) -> (opened: bool)
        ensures
            opened == opens_dir(*old(self)),
            *final(self) == explorer_enter(*old(self)),
    {
        if self.selected < self.items.len() && self.items[self.selected].is_dir {
            self.current_path = self.items[self.selected].path.clone();
            self.selected = 0;
            self.offset = 0;
            true
        } else {
            false
        }
    }

    /// The first row on screen once the selected row is scrolled into view
    /// among `max` rows. The selected row must not be the last `usize`.
    pub fn scroll_offset(&self, max: usize) -> (o: usize)
        requires
            self.selected < usize::MAX,
        ensures
            o == scrolled_offset(self.selected as int, self.offset as int, max as int),
    {
        if self.selected < self.offset {
            self.selected
        } else if self.selected - self.offset >= max {
            self.selected - max + 1
        } else {
            self.offset
        }
    }

    /// Scrolls so that the selected row shows among `max` rows, and returns the
    /// rows on screen. The new first row must not lie past the last row
    /// (`scroll_offset`), as it cannot for a well-formed explorer.
    pub fn visible(&mut self, max: usize) -> (rows: &[FileEntry])
        requires
            old(self).selected < usize::MAX,
            scrolled_offset(old(self).selected as int, old(self).offset as int, max as int)
                <= old(self).items@.len(),
        ensures
            *final(self) == (FileExplorer {
                offset: scrolled_offset(
                    old(self).selected as int,
                    old(self).offset as int,
                    max as int,
                ) as usize,
                ..*old(self)
            }),
            rows@ == final(self).items@.subrange(
                final(self).offset as int,
                vstd::math::min(final(self).offset + max, final(self).items@.len() as int),
            ),
    {
        let len = self.items.len();
        self.offset = self.scroll_offset(max);
        let end = if max >= len - self.offset {
            len
        } else {
            self.offset + max
        };
        &self.items.as_slice()[self.offset..end]
    }
}

} // verus!
