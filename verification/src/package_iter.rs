//! How the package iterator of the step solver gathers what the
//! repositories hold: the versions of a package and the repositories that
//! have each, the builds of a version and the repositories that have each,
//! and the order builds are tried in; the cursor that walks the versions of
//! a package newest first, and what is done with a build whose spec a
//! repository cannot give.

use vstd::prelude::*;
use crate::frequency::{find_key, lemma_find_key, lemma_find_key_at, lemma_find_key_is_last};
use crate::globals::lemma_find_key_update;
use crate::text::texts;

verus! {

/// What one repository lists: its name, and the items it holds (versions
/// or builds, each by a number that stands for it).
#[derive(Debug)]
pub struct Listing {
    pub repo: String,
    pub items: Vec<u64>,
}

/// An item and the names of the repositories that hold it.
#[derive(Debug)]
pub struct Holders {
    pub item: u64,
    pub repos: Vec<String>,
}

/// A table of items and their holders, as plain values.
pub type HoldersTable = Seq<(u64, Seq<Seq<char>>)>;

/// A table entry as plain values.
pub open spec fn holders_view(h: Holders) -> (u64, Seq<Seq<char>>) {
    (h.item, texts(h.repos@))
}

/// The table after the repository `repo` is found to hold `item`: the
/// repository is added to the item's holders unless already there; an item
/// met for the first time is added at the end.
pub open spec fn add_holder(t: HoldersTable, item: u64, repo: Seq<char>) -> HoldersTable {
    match find_key(t, item) {
        Some(i) => if t[i].1.contains(repo) {
            t
        } else {
            t.update(i, (item, t[i].1.push(repo)))
        },
        None => t.push((item, seq![repo])),
    }
}

/// The table after the first `n` items of a repository's listing.
pub open spec fn add_items(t: HoldersTable, repo: Seq<char>, items: Seq<u64>, n: int) -> HoldersTable
    decreases n,
{
    if n <= 0 {
        t
    } else {
        add_holder(add_items(t, repo, items, n - 1), items[n - 1], repo)
    }
}

/// The table of the first `n` listings, in order.
pub open spec fn merged(listings: Seq<Listing>, n: int) -> HoldersTable
    decreases n,
{
    if n <= 0 {
        Seq::empty()
    } else {
        let l = listings[n - 1];
        add_items(merged(listings, n - 1), l.repo@, l.items@, l.items@.len() as int)
    }
}

fn find_holders(t: &Vec<Holders>, item: u64) -> (r: Option<usize>)
    ensures
        r matches Some(i) ==> find_key(t@.map_values(|h: Holders| holders_view(h)), item) == Some(i as int),
        r is None ==> find_key(t@.map_values(|h: Holders| holders_view(h)), item) is None,
{
    let ghost view = t@.map_values(|h: Holders| holders_view(h));
    let mut i: usize = t.len();
    assert(view.take(i as int) =~= view);
    while i > 0
        invariant
            0 <= i <= t@.len(),
            view == t@.map_values(|h: Holders| holders_view(h)),
            find_key(view, item) == find_key(view.take(i as int), item),
        decreases i,
    {
        proof {
            assert(view.take(i as int).drop_last() =~= view.take(i - 1));
        }
        if t[i - 1].item == item {
            return Some(i - 1);
        }
        i = i - 1;
    }
    None
}

fn holds_repo(repos: &Vec<String>, repo: &String) -> (r: bool)
    ensures
        r == texts(repos@).contains(repo@),
{
    let mut k: usize = 0;
    while k < repos.len()
        invariant
            0 <= k <= repos@.len(),
            forall|j: int| 0 <= j < k ==> texts(repos@)[j] != repo@,
        decreases repos@.len() - k,
    {
        if repos[k] == *repo {
            assert(texts(repos@)[k as int] == repo@);
            return true;
        }
        k = k + 1;
    }
    false
}

fn add_holder_exec(t: &mut Vec<Holders>, item: u64, repo: &String)
    ensures
        final(t)@.map_values(|h: Holders| holders_view(h)) == add_holder(
            old(t)@.map_values(|h: Holders| holders_view(h)),
            item,
            repo@,
        ),
{
    let ghost before = t@.map_values(|h: Holders| holders_view(h));
    proof {
        lemma_find_key(before, item);
    }
    match find_holders(t, item) {
        Some(i) => {
            if !holds_repo(&t[i].repos, repo) {
                let mut repos = crate::text::copy_strings(&t[i].repos);
                repos.push(repo.clone());
                proof {
                    assert(texts(repos@) =~= before[i as int].1.push(repo@));
                }
                t.set(i, Holders { item, repos });
                proof {
                    assert(t@.map_values(|h: Holders| holders_view(h)) =~= add_holder(before, item, repo@));
                }
            } else {
                assert(t@.map_values(|h: Holders| holders_view(h)) =~= add_holder(before, item, repo@));
            }
        },
        None => {
            let mut repos: Vec<String> = Vec::new();
            repos.push(repo.clone());
            proof {
                assert(texts(repos@) =~= seq![repo@]);
            }
            t.push(Holders { item, repos });
            proof {
                assert(t@.map_values(|h: Holders| holders_view(h)) =~= add_holder(before, item, repo@));
            }
        },
    }
}

/// The items that the listings hold, each with the repositories that hold
/// it, in the order first met going through the listings in order.
pub fn merge_listings(listings: &Vec<Listing>) -> (r: Vec<Holders>)
    ensures
        r@.map_values(|h: Holders| holders_view(h)) == merged(listings@, listings@.len() as int),
{
    let mut t: Vec<Holders> = Vec::new();
    proof {
        assert(t@.map_values(|h: Holders| holders_view(h)) =~= Seq::<(u64, Seq<Seq<char>>)>::empty());
    }
    let mut i: usize = 0;
    while i < listings.len()
        invariant
            0 <= i <= listings@.len(),
            t@.map_values(|h: Holders| holders_view(h)) == merged(listings@, i as int),
        decreases listings@.len() - i,
    {
        let l = &listings[i];
        let ghost start = t@.map_values(|h: Holders| holders_view(h));
        let mut k: usize = 0;
        while k < l.items.len()
            invariant
                0 <= k <= l.items@.len(),
                t@.map_values(|h: Holders| holders_view(h)) == add_items(start, l.repo@, l.items@, k as int),
            decreases l.items@.len() - k,
        {
            add_holder_exec(&mut t, l.items[k], &l.repo);
            k = k + 1;
        }
        i = i + 1;
    }
    t
}

fn copy_ids(v: &Vec<u64>) -> (r: Vec<u64>)
    ensures
        r@ == v@,
{
    let mut r: Vec<u64> = Vec::new();
    let mut i: usize = 0;
    while i < v.len()
        invariant
            0 <= i <= v@.len(),
            r@ == v@.take(i as int),
        decreases v@.len() - i,
    {
        r.push(v[i]);
        proof {
            assert(r@ =~= v@.take(i + 1));
        }
        i = i + 1;
    }
    proof {
        assert(v@.take(v@.len() as int) =~= v@);
    }
    r
}

/// The versions of a package, each with the repositories that hold it, from
/// the repositories' listings (the last repository first); `None` when no
/// repository holds any version of it.
pub fn build_version_map(listings: &Vec<Listing>) -> (r: Option<Vec<Holders>>)
    ensures
        r is None <==> merged(listings@.reverse(), listings@.len() as int).len() == 0,
        r matches Some(m) ==> m@.map_values(|h: Holders| holders_view(h)) == merged(
            listings@.reverse(),
            listings@.len() as int,
        ),
{
    let mut reversed: Vec<Listing> = Vec::new();
    let mut i: usize = listings.len();
    while i > 0
        invariant
            0 <= i <= listings@.len(),
            reversed@.len() == listings@.len() - i,
            forall|j: int| 0 <= j < reversed@.len() ==> (#[trigger] reversed@[j]).repo@ == listings@[listings@.len() - 1 - j].repo@
                && reversed@[j].items@ == listings@[listings@.len() - 1 - j].items@,
        decreases i,
    {
        let l = &listings[i - 1];
        reversed.push(Listing { repo: l.repo.clone(), items: copy_ids(&l.items) });
        i = i - 1;
    }
    let m = merge_listings(&reversed);
    proof {
        lemma_merged_same(reversed@, listings@.reverse(), listings@.len() as int);
    }
    if m.len() == 0 {
        None
    } else {
        Some(m)
    }
}

proof fn lemma_merged_same(a: Seq<Listing>, b: Seq<Listing>, n: int)
    requires
        0 <= n <= a.len(),
        a.len() == b.len(),
        forall|j: int| 0 <= j < a.len() ==> (#[trigger] a[j]).repo@ == b[j].repo@ && a[j].items@ == b[j].items@,
    ensures
        merged(a, n) == merged(b, n),
    decreases n,
{
    if n > 0 {
        lemma_merged_same(a, b, n - 1);
        assert(a[n - 1].repo@ == b[n - 1].repo@);
    }
}

/// The table holds the item.
pub open spec fn has_item(t: HoldersTable, item: u64) -> bool {
    find_key(t, item) is Some
}

/// The table records `repo` as a holder of `item`.
pub open spec fn has_holder(t: HoldersTable, item: u64, repo: Seq<char>) -> bool {
    find_key(t, item) matches Some(k) && t[k].1.contains(repo)
}

/// One of the first `n` listings holds the item.
pub open spec fn listed(listings: Seq<Listing>, n: int, item: u64) -> bool {
    exists|i: int| 0 <= i < n && #[trigger] listings[i].items@.contains(item)
}

/// The listing is that of `repo`, and holds the item.
pub open spec fn lists(l: Listing, item: u64, repo: Seq<char>) -> bool {
    l.repo@ == repo && l.items@.contains(item)
}

/// One of the first `n` listings is that of `repo` and holds the item.
pub open spec fn held_by(listings: Seq<Listing>, n: int, item: u64, repo: Seq<char>) -> bool {
    exists|i: int| 0 <= i < n && #[trigger] lists(listings[i], item, repo)
}

proof fn lemma_add_holder(t: HoldersTable, x: u64, r: Seq<char>, item: u64, repo: Seq<char>)
    ensures
        has_item(add_holder(t, x, r), item) == (has_item(t, item) || item == x),
        has_holder(add_holder(t, x, r), item, repo) == (has_holder(t, item, repo) || (item == x && repo == r)),
{
    let after = add_holder(t, x, r);
    lemma_find_key(t, x);
    lemma_find_key(t, item);
    match find_key(t, x) {
        Some(i) => {
            if !t[i].1.contains(r) {
                lemma_find_key_is_last(t, x, i);
                assert forall|j: int| i < j < after.len() implies (#[trigger] after[j]).0 != x by {
                    assert(after[j] == t[j]);
                }
                lemma_find_key_at(after, x, i);
                assert(after[i].1 == t[i].1.push(r));
                assert(after[i].1[t[i].1.len() as int] == r);
                if item != x {
                    lemma_find_key_update(t, i, t[i].1.push(r), item);
                    match find_key(t, item) {
                        Some(k) => {
                            assert(k != i);
                            assert(after[k] == t[k]);
                        },
                        None => {},
                    }
                } else {
                    if t[i].1.contains(repo) {
                        let j = choose|j: int| 0 <= j < t[i].1.len() && t[i].1[j] == repo;
                        assert(after[i].1[j] == repo);
                    }
                    if after[i].1.contains(repo) && repo != r {
                        let j = choose|j: int| 0 <= j < after[i].1.len() && after[i].1[j] == repo;
                        assert(j < t[i].1.len());
                        assert(t[i].1[j] == repo);
                    }
                }
            }
        },
        None => {
            assert(after.drop_last() =~= t);
            lemma_find_key_at(after, x, after.len() - 1);
            assert(after.last().1 =~= seq![r]);
            if item != x {
                assert(find_key(after, item) == find_key(t, item));
                match find_key(t, item) {
                    Some(k) => {
                        assert(after[k] == t[k]);
                    },
                    None => {},
                }
            } else {
                assert(after.last().1[0] == r);
                if after.last().1.contains(repo) {
                    let j = choose|j: int| 0 <= j < after.last().1.len() && after.last().1[j] == repo;
                    assert(j == 0);
                }
            }
        },
    }
}

proof fn lemma_add_items(t: HoldersTable, r: Seq<char>, items: Seq<u64>, m: int, item: u64, repo: Seq<char>)
    requires
        0 <= m <= items.len(),
    ensures
        has_item(add_items(t, r, items, m), item) == (has_item(t, item) || items.take(m).contains(item)),
        has_holder(add_items(t, r, items, m), item, repo) == (has_holder(t, item, repo) || (repo == r
            && items.take(m).contains(item))),
    decreases m,
{
    if m > 0 {
        lemma_add_items(t, r, items, m - 1, item, repo);
        lemma_add_holder(add_items(t, r, items, m - 1), items[m - 1], r, item, repo);
        let a = items.take(m - 1);
        let b = items.take(m);
        assert(b =~= a.push(items[m - 1]));
        if b.contains(item) && item != items[m - 1] {
            let j = choose|j: int| 0 <= j < b.len() && b[j] == item;
            assert(j < m - 1);
            assert(a[j] == item);
        }
        if a.contains(item) {
            let j = choose|j: int| 0 <= j < a.len() && a[j] == item;
            assert(b[j] == item);
        }
        if item == items[m - 1] {
            assert(b[m - 1] == item);
        }
    } else {
        assert(items.take(0) =~= Seq::<u64>::empty());
    }
}

/// The merged listings record exactly the items that some repository
/// holds, and for each of them exactly the repositories that hold it.
pub proof fn lemma_merged_records_holders(listings: Seq<Listing>, n: int, item: u64, repo: Seq<char>)
    requires
        0 <= n <= listings.len(),
    ensures
        has_item(merged(listings, n), item) == listed(listings, n, item),
        has_holder(merged(listings, n), item, repo) == held_by(listings, n, item, repo),
    decreases n,
{
    if n > 0 {
        lemma_merged_records_holders(listings, n - 1, item, repo);
        let l = listings[n - 1];
        lemma_add_items(merged(listings, n - 1), l.repo@, l.items@, l.items@.len() as int, item, repo);
        assert(l.items@.take(l.items@.len() as int) =~= l.items@);
        if listed(listings, n, item) && !l.items@.contains(item) {
            let i = choose|i: int| 0 <= i < n && #[trigger] listings[i].items@.contains(item);
            assert(i < n - 1);
        }
        if listed(listings, n - 1, item) {
            let i = choose|i: int| 0 <= i < n - 1 && #[trigger] listings[i].items@.contains(item);
            assert(listings[i].items@.contains(item));
        }
        if l.items@.contains(item) {
            assert(listings[n - 1].items@.contains(item));
        }
        if held_by(listings, n, item, repo) && !(repo == l.repo@ && l.items@.contains(item)) {
            let i = choose|i: int| 0 <= i < n && #[trigger] lists(listings[i], item, repo);
            assert(i < n - 1);
        }
        if held_by(listings, n - 1, item, repo) {
            let i = choose|i: int| 0 <= i < n - 1 && #[trigger] lists(listings[i], item, repo);
            assert(lists(listings[i], item, repo));
        }
        if repo == l.repo@ && l.items@.contains(item) {
            assert(lists(listings[n - 1], item, repo));
        }
    }
}

/// The builds in the order they are tried: source builds first, the rest
/// after, each group in the order given.
pub open spec fn build_order(builds: Seq<(u64, bool)>) -> Seq<u64> {
    builds.filter(|b: (u64, bool)| b.1).map_values(|b: (u64, bool)| b.0) + builds.filter(
        |b: (u64, bool)| !b.1,
    ).map_values(|b: (u64, bool)| b.0)
}

/// Order the builds of a version (each with whether it is a source build)
/// for trying: source builds first.
pub fn order_builds(builds: &Vec<(u64, bool)>) -> (r: Vec<u64>)
    ensures
        r@ == build_order(builds@),
{
    let mut sources: Vec<u64> = Vec::new();
    let mut others: Vec<u64> = Vec::new();
    let mut i: usize = 0;
    while i < builds.len()
        invariant
            0 <= i <= builds@.len(),
            sources@ == builds@.take(i as int).filter(|b: (u64, bool)| b.1).map_values(|b: (u64, bool)| b.0),
            others@ == builds@.take(i as int).filter(|b: (u64, bool)| !b.1).map_values(|b: (u64, bool)| b.0),
        decreases builds@.len() - i,
    {
        proof {
            reveal_with_fuel(Seq::<(u64, bool)>::filter, 1);
            assert(builds@.take(i + 1).drop_last() =~= builds@.take(i as int));
        }
        let (id, is_source) = builds[i];
        if is_source {
            sources.push(id);
            proof {
                assert(sources@ =~= builds@.take(i + 1).filter(|b: (u64, bool)| b.1).map_values(|b: (u64, bool)| b.0));
                assert(others@ =~= builds@.take(i + 1).filter(|b: (u64, bool)| !b.1).map_values(|b: (u64, bool)| b.0));
            }
        } else {
            others.push(id);
            proof {
                assert(sources@ =~= builds@.take(i + 1).filter(|b: (u64, bool)| b.1).map_values(|b: (u64, bool)| b.0));
                assert(others@ =~= builds@.take(i + 1).filter(|b: (u64, bool)| !b.1).map_values(|b: (u64, bool)| b.0));
            }
        }
        i = i + 1;
    }
    proof {
        assert(builds@.take(builds@.len() as int) =~= builds@);
    }
    let mut r = sources;
    let mut o = others;
    r.append(&mut o);
    r
}


/// Whether the versions go from the newest to the oldest.
pub open spec fn newest_first(s: Seq<u64>) -> bool {
    forall|i: int, j: int| 0 <= i < j < s.len() ==> s[i] >= s[j]
}

/// The versions of a table of versions and their holders, newest first.
pub fn versions_newest_first(table: &Vec<Holders>) -> (r: Vec<u64>)
    ensures
        newest_first(r@),
        r@.to_multiset() == table@.map_values(|h: Holders| h.item).to_multiset(),
{
    let ghost items = table@.map_values(|h: Holders| h.item);
    let mut out: Vec<u64> = Vec::new();
    let mut i: usize = 0;
    proof {
        assert(items.take(0) =~= Seq::<u64>::empty());
    }
    while i < table.len()
        invariant
            0 <= i <= table@.len(),
            items == table@.map_values(|h: Holders| h.item),
            newest_first(out@),
            out@.to_multiset() == items.take(i as int).to_multiset(),
        decreases table@.len() - i,
    {
        let x = table[i].item;
        let mut p: usize = 0;
        while p < out.len() && out[p] >= x
            invariant
                0 <= p <= out@.len(),
                forall|k: int| 0 <= k < p ==> #[trigger] out@[k] >= x,
            decreases out@.len() - p,
        {
            p = p + 1;
        }
        let ghost before = out@;
        out.insert(p, x);
        proof {
            assert(out@ =~= before.insert(p as int, x));
            assert forall|a: int, b: int| 0 <= a < b < out@.len() implies #[trigger] out@[a] >= #[trigger] out@[b] by {
                if a < p && b == p {
                } else if a < p && b > p {
                    assert(out@[b] == before[b - 1]);
                } else if a == p {
                    assert(out@[b] == before[b - 1]);
                    assert(before[p as int] < x);
                } else if a > p {
                    assert(out@[a] == before[a - 1]);
                    assert(out@[b] == before[b - 1]);
                } else {
                    assert(out@[a] == before[a]);
                    assert(out@[b] == before[b]);
                }
            }
            assert(items.take(i + 1) =~= items.take(i as int).push(x));
            vstd::seq_lib::to_multiset_build(items.take(i as int), x);
            vstd::seq_lib::to_multiset_insert(before, p as int, x);
        }
        i = i + 1;
    }
    proof {
        assert(items.take(table@.len() as int) =~= items);
    }
    out
}


/// What the package iterator asks for next.
#[derive(Debug, PartialEq, Eq, Structural)]
pub enum CursorStep {
    /// Read the versions of the package from the repositories, then `start`.
    Start,
    /// Read the builds of this version from the repositories that hold it,
    /// then `set_builds` (or `skip_version` where its spec cannot be read).
    ReadBuilds(u64),
    /// Hand out this version and its builds.
    Yield(u64),
    /// No version is left.
    Exhausted,
}

/// The cursor of the package iterator over the versions of one package:
/// whether the versions were read, those still to come (newest first), the
/// one it stands at, and the versions whose builds it holds.
#[derive(Debug)]
pub struct VersionCursor {
    started: bool,
    queue: Vec<u64>,
    active: Option<u64>,
    read: Vec<u64>,
}

/// A cursor as plain values.
pub struct VersionCursorView {
    pub started: bool,
    pub queue: Seq<u64>,
    pub active: Option<u64>,
    pub read: Seq<u64>,
}

impl View for VersionCursor {
    type V = VersionCursorView;

    closed spec fn view(&self) -> VersionCursorView {
        VersionCursorView {
            started: self.started,
            queue: self.queue@,
            active: self.active,
            read: self.read@,
        }
    }
}

/// The versions not yet passed over: the one the cursor stands at, then
/// those still to come.
pub open spec fn pending(c: VersionCursorView) -> Seq<u64> {
    match c.active {
        Some(v) => seq![v] + c.queue,
        None => c.queue,
    }
}

/// The versions that remain once those whose builds are held and used up
/// (held, and not among the `open` ones) are passed over from the front.
pub open spec fn skip_used_up(p: Seq<u64>, read: Seq<u64>, open: Seq<u64>) -> Seq<u64>
    decreases p.len(),
{
    if p.len() == 0 {
        p
    } else if read.contains(p[0]) && !open.contains(p[0]) {
        skip_used_up(p.drop_first(), read, open)
    } else {
        p
    }
}

/// The versions a started cursor can still stand at, given the held versions
/// whose builds are not used up.
pub open spec fn still_open(c: VersionCursorView, open: Seq<u64>) -> Seq<u64> {
    skip_used_up(pending(c), c.read, open)
}

/// What is left after passing over used-up versions is an end of what was
/// there.
pub proof fn lemma_skip_used_up_suffix(p: Seq<u64>, read: Seq<u64>, open: Seq<u64>)
    ensures
        exists|k: int| 0 <= k <= p.len() && #[trigger] p.skip(k) == skip_used_up(p, read, open),
    decreases p.len(),
{
    if p.len() == 0 {
        assert(p.skip(0) =~= p);
    } else if read.contains(p[0]) && !open.contains(p[0]) {
        lemma_skip_used_up_suffix(p.drop_first(), read, open);
        let k = choose|k: int| 0 <= k <= p.drop_first().len() && #[trigger] p.drop_first().skip(k) == skip_used_up(p.drop_first(), read, open);
        assert(p.skip(k + 1) =~= p.drop_first().skip(k));
    } else {
        assert(p.skip(0) =~= p);
    }
}

impl VersionCursor {
    /// The ordering that the cursor keeps: what it has not passed over goes
    /// from the newest version to the oldest.
    pub open spec fn wf(&self) -> bool {
        newest_first(pending(self@))
    }

    /// A cursor whose versions are not read yet.
    pub fn new() -> (c: VersionCursor)
        ensures
            c@ == (VersionCursorView {
                started: false,
                queue: Seq::empty(),
                active: None,
                read: Seq::empty(),
            }),
            c.wf(),
    {
        VersionCursor { started: false, queue: Vec::new(), active: None, read: Vec::new() }
    }

    /// Take the versions of the package and their holders: all of them are
    /// still to come, newest first.
    pub fn start(&mut self, table: &Vec<Holders>)
        ensures
            final(self)@.started,
            final(self)@.active is None,
            final(self)@.read == old(self)@.read,
            newest_first(final(self)@.queue),
            final(self)@.queue.to_multiset() == table@.map_values(|h: Holders| h.item).to_multiset(),
            final(self).wf(),
    {
        self.queue = versions_newest_first(table);
        self.active = None;
        self.started = true;
    }

    /// The builds of `version` are held from now on.
    pub fn set_builds(&mut self, version: u64)
        requires
            old(self).wf(),
        ensures
            final(self)@ == (VersionCursorView { read: old(self)@.read.push(version), ..old(self)@ }),
            final(self).wf(),
    {
        self.read.push(version);
    }

    /// Pass over the version the cursor stands at (its spec could not be
    /// read).
    pub fn skip_version(&mut self)
        requires
            old(self).wf(),
        ensures
            final(self)@ == (VersionCursorView { active: None, ..old(self)@ }),
            final(self).wf(),
    {
        self.active = None;
        proof {
            if let Some(v) = old(self)@.active {
                assert(pending(self@) =~= pending(old(self)@).drop_first());
            }
        }
    }

    /// A copy of the cursor at the same point in the versions; it stands at
    /// no version and holds no builds.
    pub fn fork(&self) -> (c: VersionCursor)
        requires
            self.wf(),
        ensures
            c@ == (VersionCursorView {
                started: self@.started,
                queue: self@.queue,
                active: None,
                read: Seq::empty(),
            }),
            c.wf(),
    {
        let mut queue: Vec<u64> = Vec::new();
        let mut i: usize = 0;
        while i < self.queue.len()
            invariant
                0 <= i <= self.queue@.len(),
                queue@ == self.queue@.take(i as int),
            decreases self.queue@.len() - i,
        {
            queue.push(self.queue[i]);
            proof {
                assert(queue@ =~= self.queue@.take(i + 1));
            }
            i = i + 1;
        }
        proof {
            assert(self.queue@.take(self.queue@.len() as int) =~= self.queue@);
            if let Some(v) = self.active {
                assert(pending(self@).drop_first() =~= self.queue@);
            }
        }
        VersionCursor { started: self.started, queue, active: None, read: Vec::new() }
    }

    /// The next step of the package iterator, given the held versions whose
    /// builds are not used up (`open`): read the versions first; then pass
    /// over the versions whose builds are held and used up, and stand at the
    /// first other one: read its builds where they are not held, else hand
    /// it out; where none is left, the iterator is exhausted.
    pub fn next_step(&mut self, open: &Vec<u64>) -> (step: CursorStep)
        requires
            old(self).wf(),
        ensures
            final(self).wf(),
            !old(self)@.started ==> step == CursorStep::Start && final(self)@ == old(self)@,
            old(self)@.started ==> final(self)@.started && final(self)@.read == old(self)@.read,
            old(self)@.started && still_open(old(self)@, open@).len() == 0
                ==> step == CursorStep::Exhausted && final(self)@.active is None && final(self)@.queue.len() == 0,
            old(self)@.started && still_open(old(self)@, open@).len() > 0 ==> ({
                let v = still_open(old(self)@, open@)[0];
                &&& final(self)@.active == Some(v)
                &&& final(self)@.queue == still_open(old(self)@, open@).drop_first()
                &&& step == if old(self)@.read.contains(v) {
                    CursorStep::Yield(v)
                } else {
                    CursorStep::ReadBuilds(v)
                }
            }),
            exists|k: int|
                0 <= k <= pending(old(self)@).len() && #[trigger] pending(old(self)@).skip(k) == pending(
                    final(self)@,
                ),
            step matches CursorStep::Yield(v) ==> forall|i: int|
                0 <= i < final(self)@.queue.len() ==> v >= #[trigger] final(self)@.queue[i],
            step matches CursorStep::ReadBuilds(v) ==> forall|i: int|
                0 <= i < final(self)@.queue.len() ==> v >= #[trigger] final(self)@.queue[i],
    {
        if !self.started {
            proof {
                assert(pending(self@).skip(0) =~= pending(self@));
            }
            return CursorStep::Start;
        }
        let ghost target = still_open(old(self)@, open@);
        loop
            invariant
                self.wf(),
                self@.started,
                old(self)@.started,
                self@.read == old(self)@.read,
                skip_used_up(pending(self@), self@.read, open@) == target,
                target == still_open(old(self)@, open@),
            decreases self.queue@.len() + if self.active is Some { 1int } else { 0int },
        {
            if self.active.is_none() {
                if self.queue.len() == 0 {
                    proof {
                        assert(pending(self@) =~= Seq::<u64>::empty());
                        lemma_skip_used_up_suffix(pending(old(self)@), old(self)@.read, open@);
                    }
                    return CursorStep::Exhausted;
                }
                let ghost before = pending(self@);
                let v = self.queue.remove(0);
                self.active = Some(v);
                proof {
                    assert(pending(self@) =~= before);
                }
            }
            let v = match self.active {
                Some(v) => v,
                None => 0,
            };
            let ghost p = pending(self@);
            proof {
                assert(p[0] == v);
                assert(p.drop_first() =~= self.queue@);
            }
            let held = contains_id(&self.read, v);
            if held && !contains_id(open, v) {
                self.active = None;
                proof {
                    assert(pending(self@) =~= p.drop_first());
                }
            } else {
                proof {
                    assert(skip_used_up(p, self@.read, open@) == p);
                    lemma_skip_used_up_suffix(pending(old(self)@), old(self)@.read, open@);
                    assert forall|i: int| 0 <= i < self.queue@.len() implies v >= #[trigger] self.queue@[i] by {
                        assert(p[i + 1] == self.queue@[i]);
                    }
                }
                if held {
                    return CursorStep::Yield(v);
                } else {
                    return CursorStep::ReadBuilds(v);
                }
            }
        }
    }
}

fn contains_id(v: &Vec<u64>, x: u64) -> (r: bool)
    ensures
        r == v@.contains(x),
{
    let mut i: usize = 0;
    while i < v.len()
        invariant
            0 <= i <= v@.len(),
            forall|k: int| 0 <= k < i ==> v@[k] != x,
        decreases v@.len() - i,
    {
        if v[i] == x {
            return true;
        }
        i = i + 1;
    }
    false
}


/// What reading the spec of a build from one repository that lists it gave.
#[derive(Debug, Clone, Copy, PartialEq, Eq, Structural)]
pub enum SpecRead {
    /// The spec was read.
    Found,
    /// The repository lists the build but has no spec for it.
    Missing,
    /// The spec read has no build in its ident: it is corrupt.
    Corrupt,
}

/// What the build iterator does with the build it takes next.
#[derive(Debug)]
pub enum BuildOutcome {
    /// Pass over the build and take the next one.
    PassOver,
    /// Hand out the build from these repositories.
    Offer(Vec<String>),
}

/// Whether the spec of the build could be read from every repository.
pub open spec fn all_found(reads: Seq<(String, SpecRead)>) -> bool {
    forall|i: int| 0 <= i < reads.len() ==> (#[trigger] reads[i]).1 == SpecRead::Found
}

/// What the build iterator does with a build, from what reading its spec
/// gave in each repository that lists it (in the order read): it hands the
/// build out from all of them where each had its spec, and passes over the
/// build where one had none or a corrupt one.
pub fn build_outcome(reads: &Vec<(String, SpecRead)>) -> (r: BuildOutcome)
    ensures
        r is PassOver <==> !all_found(reads@),
        r matches BuildOutcome::Offer(names) ==> texts(names@) == reads@.map_values(
            |x: (String, SpecRead)| x.0@,
        ),
{
    let mut names: Vec<String> = Vec::new();
    let mut i: usize = 0;
    while i < reads.len()
        invariant
            0 <= i <= reads@.len(),
            all_found(reads@.take(i as int)),
            names@.len() == i,
            forall|j: int| 0 <= j < i ==> (#[trigger] names@[j])@ == reads@[j].0@,
        decreases reads@.len() - i,
    {
        let read = reads[i].1;
        if read != SpecRead::Found {
            proof {
                assert(reads@[i as int].1 != SpecRead::Found);
            }
            return BuildOutcome::PassOver;
        }
        names.push(reads[i].0.clone());
        proof {
            assert forall|k: int| 0 <= k < i + 1 implies (#[trigger] reads@.take(i + 1)[k]).1 == SpecRead::Found by {
                if k < i {
                    assert(reads@.take(i + 1)[k] == reads@.take(i as int)[k]);
                }
            }
        }
        i = i + 1;
    }
    proof {
        assert(reads@.take(reads@.len() as int) =~= reads@);
        assert(texts(names@) =~= reads@.map_values(|x: (String, SpecRead)| x.0@));
    }
    BuildOutcome::Offer(names)
}

} // verus!
