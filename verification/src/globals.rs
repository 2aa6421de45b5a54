//! The global vars that the resolvo dependency provider learns during a
//! solve: every value seen for each var, which vars the solver has already
//! asked for candidates, and whether a new value seen too late cancels the
//! solve so that it can start over.

use vstd::prelude::*;
use crate::frequency::{
    find_key, keys_unique, lemma_find_key, lemma_find_key_at, lemma_find_key_is_last, lemma_keys_unique_push,
    lemma_keys_unique_update,
};
use crate::text::push_text;
use crate::ordering::{compare_text, lemma_text_order_props, ordering_of, text_order};
use std::cmp::Ordering;
use vstd::std_specs::cmp::{PartialEqSpecImpl, PartialOrdSpecImpl};

verus! {

/// A value of a var, held either as shared text from a request or as text
/// owned by the provider. Two values are equal when their texts are, and
/// are ordered as their texts are.
#[derive(Clone, Debug)]
pub enum VarValue {
    ArcStr(String),
    Owned(String),
}

impl VarValue {
    /// The text of the value.
    pub open spec fn text(&self) -> Seq<char> {
        match self {
            VarValue::ArcStr(a) => a@,
            VarValue::Owned(a) => a@,
        }
    }

    /// The value as text.
    pub fn as_str(&self) -> (r: &str)
        ensures
            r@ == self.text(),
    {
        match self {
            VarValue::ArcStr(a) => a.as_str(),
            VarValue::Owned(a) => a.as_str(),
        }
    }

    fn text_string(&self) -> (r: &String)
        ensures
            r@ == self.text(),
    {
        match self {
            VarValue::ArcStr(a) => a,
            VarValue::Owned(a) => a,
        }
    }
}

impl PartialEq for VarValue {
    fn eq(&self, other: &Self) -> (r: bool) {
        *self.text_string() == *other.text_string()
    }
}

impl PartialEqSpecImpl for VarValue {
    open spec fn obeys_eq_spec() -> bool {
        true
    }

    open spec fn eq_spec(&self, other: &VarValue) -> bool {
        self.text() == other.text()
    }
}

impl Eq for VarValue {
}

impl PartialOrd for VarValue {
    fn partial_cmp(&self, other: &Self) -> (r: Option<Ordering>) {
        let c = compare_text(self.text_string(), other.text_string());
        if c < 0 {
            Some(Ordering::Less)
        } else if c > 0 {
            Some(Ordering::Greater)
        } else {
            Some(Ordering::Equal)
        }
    }
}

impl PartialOrdSpecImpl for VarValue {
    open spec fn obeys_partial_cmp_spec() -> bool {
        true
    }

    open spec fn partial_cmp_spec(&self, other: &VarValue) -> Option<Ordering> {
        Some(ordering_of(text_order(self.text(), other.text())))
    }
}

/// The texts of a sequence of strings, as a table entry holds them.
pub open spec fn value_texts(vs: Seq<String>) -> Seq<Seq<char>> {
    vs.map_values(|v: String| v@)
}

/// What a tracker holds: for each var seen, the values seen, in the order
/// first seen; the vars whose candidates were asked for; and the reason to
/// cancel the solve, if any.
pub struct GlobalVarsView {
    pub known: Seq<(Seq<char>, Seq<Seq<char>>)>,
    pub queried: Seq<Seq<char>>,
    pub cancel: Option<Seq<char>>,
}

/// The values seen for `key`, in the order first seen.
pub open spec fn values_of(known: Seq<(Seq<char>, Seq<Seq<char>>)>, key: Seq<char>) -> Seq<Seq<char>> {
    match find_key(known, key) {
        Some(i) => known[i].1,
        None => Seq::empty(),
    }
}

/// Whether any value was seen for `key`.
pub open spec fn is_known(known: Seq<(Seq<char>, Seq<Seq<char>>)>, key: Seq<char>) -> bool {
    find_key(known, key) is Some
}

/// The message that cancels a solve when a new value of an already queried
/// var is seen.
pub open spec fn new_value_message(key: Seq<char>, value: Seq<char>) -> Seq<char> {
    "Saw new value for global var: "@ + key + "/"@ + value
}

/// The table of known values after `value` is seen for `key`: the value is
/// added to the var's values unless already there, and a var seen for the
/// first time is added at the end.
pub open spec fn observe_known(
    known: Seq<(Seq<char>, Seq<Seq<char>>)>,
    key: Seq<char>,
    value: Seq<char>,
) -> Seq<(Seq<char>, Seq<Seq<char>>)> {
    match find_key(known, key) {
        Some(i) => if known[i].1.contains(value) {
            known
        } else {
            known.update(i, (key, known[i].1.push(value)))
        },
        None => known.push((key, seq![value])),
    }
}

/// The tables of a tracker hold no duplicates: each var once, each of its
/// values once, each queried var once.
pub open spec fn tables_wf(v: GlobalVarsView) -> bool {
    &&& keys_unique(v.known)
    &&& forall|i: int| 0 <= i < v.known.len() ==> (#[trigger] v.known[i]).1.no_duplicates()
    &&& v.queried.no_duplicates()
}

/// Seeing a value keeps the known table free of duplicates.
pub proof fn lemma_observe_known_wf(known: Seq<(Seq<char>, Seq<Seq<char>>)>, key: Seq<char>, value: Seq<char>)
    requires
        keys_unique(known),
        forall|i: int| 0 <= i < known.len() ==> (#[trigger] known[i]).1.no_duplicates(),
    ensures
        keys_unique(observe_known(known, key, value)),
        forall|i: int|
            0 <= i < observe_known(known, key, value).len() ==> (#[trigger] observe_known(known, key, value)[i]).1.no_duplicates(),
{
    lemma_find_key(known, key);
    let r = observe_known(known, key, value);
    match find_key(known, key) {
        Some(i) => {
            if !known[i].1.contains(value) {
                lemma_keys_unique_update(known, i, known[i].1.push(value));
                let vs = known[i].1.push(value);
                assert forall|a: int, b: int| 0 <= a < b < vs.len() implies vs[a] != vs[b] by {
                    if b == vs.len() - 1 {
                        assert(vs[a] == known[i].1[a]);
                    }
                }
                assert forall|j: int| 0 <= j < r.len() implies (#[trigger] r[j]).1.no_duplicates() by {
                    if j != i {
                        assert(r[j] == known[j]);
                    }
                }
            }
        },
        None => {
            lemma_keys_unique_push(known, key, seq![value]);
            assert forall|j: int| 0 <= j < r.len() implies (#[trigger] r[j]).1.no_duplicates() by {
                if j < known.len() {
                    assert(r[j] == known[j]);
                }
            }
        },
    }
}

/// The tracker after `value` is seen for `key` during the solve.
pub open spec fn observed(before: GlobalVarsView, key: Seq<char>, value: Seq<char>) -> GlobalVarsView {
    let new = !values_of(before.known, key).contains(value);
    GlobalVarsView {
        known: observe_known(before.known, key, value),
        queried: before.queried,
        cancel: if new && before.queried.contains(key) {
            Some(new_value_message(key, value))
        } else {
            before.cancel
        },
    }
}

/// The tracker after each var value of `seen` is seen, in order.
pub open spec fn observed_all(before: GlobalVarsView, seen: Seq<(Seq<char>, Seq<char>)>) -> GlobalVarsView
    decreases seen.len(),
{
    if seen.len() == 0 {
        before
    } else {
        let prev = observed_all(before, seen.drop_last());
        observed(prev, seen.last().0, seen.last().1)
    }
}

/// The global vars learned during a solve.
pub struct GlobalVars {
    known: Vec<(String, Vec<String>)>,
    queried: Vec<String>,
    cancel: Option<String>,
}

impl View for GlobalVars {
    type V = GlobalVarsView;

    closed spec fn view(&self) -> GlobalVarsView {
        GlobalVarsView {
            known: self.known@.map_values(|e: (String, Vec<String>)| (e.0@, value_texts(e.1@))),
            queried: value_texts(self.queried@),
            cancel: match self.cancel {
                Some(m) => Some(m@),
                None => None,
            },
        }
    }
}

fn find_var(known: &Vec<(String, Vec<String>)>, key: &String) -> (r: Option<usize>)
    ensures
        r matches Some(i) ==> find_key(
            known@.map_values(|e: (String, Vec<String>)| (e.0@, value_texts(e.1@))),
            key@,
        ) == Some(i as int),
        r is None ==> find_key(
            known@.map_values(|e: (String, Vec<String>)| (e.0@, value_texts(e.1@))),
            key@,
        ) is None,
{
    let ghost view = known@.map_values(|e: (String, Vec<String>)| (e.0@, value_texts(e.1@)));
    let mut i: usize = known.len();
    assert(view.take(i as int) =~= view);
    while i > 0
        invariant
            0 <= i <= known@.len(),
            view == known@.map_values(|e: (String, Vec<String>)| (e.0@, value_texts(e.1@))),
            find_key(view, key@) == find_key(view.take(i as int), key@),
        decreases i,
    {
        proof {
            assert(view.take(i as int).drop_last() =~= view.take(i - 1));
        }
        if known[i - 1].0 == *key {
            return Some(i - 1);
        }
        i = i - 1;
    }
    None
}

fn contains_value(vs: &Vec<String>, v: &String) -> (r: bool)
    ensures
        r == value_texts(vs@).contains(v@),
{
    let mut i: usize = 0;
    while i < vs.len()
        invariant
            0 <= i <= vs@.len(),
            forall|j: int| 0 <= j < i ==> (#[trigger] vs@[j])@ != v@,
        decreases vs@.len() - i,
    {
        if vs[i] == *v {
            assert(value_texts(vs@)[i as int] == v@);
            return true;
        }
        i = i + 1;
    }
    proof {
        if value_texts(vs@).contains(v@) {
            let j = choose|j: int| 0 <= j < value_texts(vs@).len() && value_texts(vs@)[j] == v@;
            assert(vs@[j]@ == v@);
        }
    }
    false
}

fn copy_values(vs: &Vec<String>) -> (r: Vec<String>)
    ensures
        value_texts(r@) == value_texts(vs@),
{
    let mut r: Vec<String> = Vec::new();
    let mut i: usize = 0;
    while i < vs.len()
        invariant
            0 <= i <= vs@.len(),
            r@.len() == i,
            forall|j: int| 0 <= j < i ==> (#[trigger] r@[j])@ == vs@[j]@,
        decreases vs@.len() - i,
    {
        r.push(vs[i].clone());
        i = i + 1;
    }
    proof {
        assert(value_texts(r@) =~= value_texts(vs@));
    }
    r
}

impl GlobalVars {
    /// No var known, none queried, no reason to cancel.
    pub fn new() -> (r: Self)
        ensures
            r@.known.len() == 0,
            r@.queried.len() == 0,
            r@.cancel is None,
            tables_wf(r@),
    {
        let r = GlobalVars { known: Vec::new(), queried: Vec::new(), cancel: None };
        proof {
            assert(r@.known =~= Seq::empty());
            assert(r@.queried =~= Seq::empty());
        }
        r
    }

    /// Record that `value` is a value of the var `key`, as a global request
    /// gives it before the solve. Returns whether the value is new for that
    /// var.
    pub fn learn(&mut self, key: &String, value: &String) -> (new: bool)
        ensures
            new == !values_of(old(self)@.known, key@).contains(value@),
            final(self)@.known == observe_known(old(self)@.known, key@, value@),
            final(self)@.queried == old(self)@.queried,
            final(self)@.cancel == old(self)@.cancel,
            tables_wf(old(self)@) ==> tables_wf(final(self)@),
    {
        let ghost old_known = self@.known;
        proof {
            lemma_find_key(old_known, key@);
            if tables_wf(old(self)@) {
                lemma_observe_known_wf(old_known, key@, value@);
            }
        }
        let new = match find_var(&self.known, key) {
            Some(i) => {
                if contains_value(&self.known[i].1, value) {
                    proof {
                        assert(self@.known =~= observe_known(old_known, key@, value@));
                    }
                    false
                } else {
                    let name = self.known[i].0.clone();
                    let mut vs = self.known[i].1.clone();
                    vs.push(value.clone());
                    self.known.set(i, (name, vs));
                    proof {
                        assert(value_texts(vs@) =~= value_texts(old(self).known@[i as int].1@).push(value@));
                        assert(self@.known =~= observe_known(old_known, key@, value@));
                    }
                    true
                }
            },
            None => {
                let mut vs: Vec<String> = Vec::new();
                vs.push(value.clone());
                self.known.push((key.clone(), vs));
                proof {
                    assert(value_texts(vs@) =~= seq![value@]);
                    assert(self@.known =~= observe_known(old_known, key@, value@));
                }
                true
            },
        };
        proof {
            assert(self@.queried == old(self)@.queried);
        }
        new
    }

    /// Record that `value` was seen for the var `key` during the solve.
    /// Returns whether the value is new for that var. A new value for a var
    /// whose candidates were already asked for cannot be taken into account
    /// any more: it sets the reason to cancel the solve.
    pub fn observe(&mut self, key: &String, value: &String) -> (new: bool)
        ensures
            new == !values_of(old(self)@.known, key@).contains(value@),
            final(self)@ == observed(old(self)@, key@, value@),
            tables_wf(old(self)@) ==> tables_wf(final(self)@),
    {
        let new = self.learn(key, value);
        if new {
            let queried = contains_value(&self.queried, key);
            if queried {
                let mut message = String::new();
                push_text(&mut message, "Saw new value for global var: ");
                push_text(&mut message, key.as_str());
                push_text(&mut message, "/");
                push_text(&mut message, value.as_str());
                proof {
                    assert(message@ =~= new_value_message(key@, value@));
                }
                self.cancel = Some(message);
            }
        }
        new
    }

    /// The values known for the var `key`, for the solver to choose from:
    /// `None` when no value was ever seen for it. From now on a new value of
    /// this var cancels the solve.
    pub fn candidates(&mut self, key: &String) -> (r: Option<Vec<String>>)
        ensures
            r is None <==> !is_known(old(self)@.known, key@),
            r matches Some(vs) ==> value_texts(vs@) == values_of(old(self)@.known, key@),
            final(self)@.known == old(self)@.known,
            final(self)@.cancel == old(self)@.cancel,
            final(self)@.queried.contains(key@),
            forall|k: Seq<char>| #[trigger] final(self)@.queried.contains(k) <==> (
                old(self)@.queried.contains(k) || k == key@),
            tables_wf(old(self)@) ==> tables_wf(final(self)@),
    {
        let present = contains_value(&self.queried, key);
        if !present {
            self.queried.push(key.clone());
            proof {
                let q = value_texts(old(self).queried@);
                assert(value_texts(self.queried@) =~= q.push(key@));
                assert(value_texts(self.queried@)[q.len() as int] == key@);
                if q.no_duplicates() {
                    assert forall|a: int, b: int| 0 <= a < b < q.push(key@).len() implies
                        q.push(key@)[a] != q.push(key@)[b] by {
                        if b == q.len() {
                            assert(q.push(key@)[a] == q[a]);
                        }
                    }
                }
                assert forall|k: Seq<char>| #[trigger] value_texts(self.queried@).contains(k) <==> (
                    q.contains(k) || k == key@) by {
                    let nq = value_texts(self.queried@);
                    if nq.contains(k) {
                        let j = choose|j: int| 0 <= j < nq.len() && nq[j] == k;
                        if j < q.len() {
                            assert(q[j] == k);
                        }
                    }
                    if q.contains(k) {
                        let j = choose|j: int| 0 <= j < q.len() && q[j] == k;
                        assert(nq[j] == k);
                    }
                }
            }
        }
        proof {
            lemma_find_key(self@.known, key@);
        }
        match find_var(&self.known, key) {
            Some(i) => Some(self.known[i].1.clone()),
            None => None,
        }
    }

    /// Whether a reason to cancel the solve was found.
    pub fn is_canceled(&self) -> (r: bool)
        ensures
            r == self@.cancel is Some,
    {
        self.cancel.is_some()
    }

    /// The reason to cancel the solve, if any.
    pub fn cancel_reason(&self) -> (r: Option<String>)
        ensures
            r matches Some(m) ==> self@.cancel == Some(m@),
            r is None ==> self@.cancel is None,
    {
        match &self.cancel {
            Some(m) => Some(m.clone()),
            None => None,
        }
    }

    /// The tracker for a restarted solve: the values learned are kept, no
    /// var is queried yet and nothing cancels it.
    pub fn restart(&self) -> (r: Self)
        ensures
            r@.known == self@.known,
            r@.queried.len() == 0,
            r@.cancel is None,
            tables_wf(self@) ==> tables_wf(r@),
    {
        let mut known: Vec<(String, Vec<String>)> = Vec::new();
        let mut i: usize = 0;
        while i < self.known.len()
            invariant
                0 <= i <= self.known@.len(),
                known@.len() == i,
                forall|j: int| 0 <= j < i ==> (#[trigger] known@[j]).0@ == self.known@[j].0@
                    && value_texts(known@[j].1@) == value_texts(self.known@[j].1@),
            decreases self.known@.len() - i,
        {
            let name = self.known[i].0.clone();
            let vs = copy_values(&self.known[i].1);
            known.push((name, vs));
            i = i + 1;
        }
        let r = GlobalVars { known, queried: Vec::new(), cancel: None };
        proof {
            assert(r@.queried =~= Seq::empty());
            assert(r@.known =~= self@.known);
        }
        r
    }
}

/// Replacing the entry at `i` with one of the same key leaves where every
/// other key is found unchanged.
pub proof fn lemma_find_key_update<K, V>(
    e: Seq<(K, V)>,
    i: int,
    v: V,
    k: K,
)
    requires
        0 <= i < e.len(),
        k != e[i].0,
    ensures
        find_key(e.update(i, (e[i].0, v)), k) == find_key(e, k),
    decreases e.len(),
{
    let u = e.update(i, (e[i].0, v));
    if e.len() > 0 {
        if i < e.len() - 1 {
            assert(u.drop_last() =~= e.drop_last().update(i, (e[i].0, v)));
            lemma_find_key_update(e.drop_last(), i, v, k);
        } else {
            assert(u.drop_last() =~= e.drop_last());
        }
    }
}

/// Once a value is seen for a var, the var is known and the value is among
/// its values; what is known of every other var is unchanged.
pub proof fn lemma_observe_records_value(
    known: Seq<(Seq<char>, Seq<Seq<char>>)>,
    key: Seq<char>,
    value: Seq<char>,
    other: Seq<char>,
)
    requires
        other != key,
    ensures
        is_known(observe_known(known, key, value), key),
        values_of(observe_known(known, key, value), key).contains(value),
        values_of(observe_known(known, key, value), other) == values_of(known, other),
        is_known(observe_known(known, key, value), other) == is_known(known, other),
{
    lemma_find_key(known, key);
    lemma_find_key(known, other);
    let after = observe_known(known, key, value);
    match find_key(known, key) {
        Some(i) => {
            if !known[i].1.contains(value) {
                lemma_find_key_update(known, i, known[i].1.push(value), other);
                lemma_find_key_is_last(known, key, i);
                assert forall|j: int| i < j < after.len() implies (#[trigger] after[j]).0 != key by {
                    assert(after[j] == known[j]);
                }
                lemma_find_key_at(after, key, i);
                assert(after[i].1.last() == value);
                match find_key(known, other) {
                    Some(j) => {
                        assert(j != i);
                        assert(after[j] == known[j]);
                    },
                    None => {},
                }
            }
        },
        None => {
            assert(after.drop_last() =~= known);
            assert(after.last().1 =~= seq![value]);
            assert(after.last().1[0] == value);
            assert(after.last().0 == key);
            assert(find_key(after, other) == find_key(known, other));
            lemma_find_key_at(after, key, after.len() - 1);
            match find_key(known, other) {
                Some(j) => {
                    assert(after[j] == known[j]);
                },
                None => {},
            }
        },
    }
}

/// Once the solver has asked for the candidates of a var, a value of it not
/// seen before cancels the solve, saying which value it was.
pub proof fn lemma_new_value_after_query_cancels(before: GlobalVarsView, key: Seq<char>, value: Seq<char>)
    requires
        before.queried.contains(key),
        !values_of(before.known, key).contains(value),
    ensures
        observed(before, key, value).cancel == Some(new_value_message(key, value)),
{
}

/// Seeing a value that is already known changes nothing.
pub proof fn lemma_observe_again(
    known: Seq<(Seq<char>, Seq<Seq<char>>)>,
    key: Seq<char>,
    value: Seq<char>,
)
    ensures
        observe_known(observe_known(known, key, value), key, value) == observe_known(known, key, value),
{
    lemma_observe_records_value(known, key, value, seq!['x'].add(key));
    lemma_find_key(observe_known(known, key, value), key);
}

} // verus!
