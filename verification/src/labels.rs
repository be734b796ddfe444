//! The label encoding: distinct training labels in lexicographic byte order,
//! each numbered by its position.

use vstd::prelude::*;
use vstd::seq_lib::*;
use crate::manifest::{Observation, ObservationView};
use crate::text::{lemma_text_lt_transitive, lemma_text_order, rank_text, text_lt, Rank};

verus! {

/// Each name comes strictly before every later one.
pub open spec fn strictly_sorted(names: Seq<Seq<char>>) -> bool {
    forall|i: int, j: int|
        0 <= i < j < names.len() ==> text_lt(#[trigger] names[i], #[trigger] names[j])
}

/// The labels of a run of observations, in order.
pub open spec fn labels_of(entries: Seq<ObservationView>) -> Seq<Seq<char>> {
    Seq::new(entries.len(), |i: int| entries[i].label)
}

/// Why a label array could not be built.
#[derive(Clone, Copy, Debug, PartialEq, Eq, Structural)]
pub enum LabelError {
    /// The observation at `index` carries a label that the map does not hold.
    UnseenLabel { index: usize },
    /// The id of the label at `index` does not fit a signed 64-bit integer.
    IdOutOfRange { index: usize },
}

/// The encoding of labels as dense integer ids.
///
/// The map holds its labels in strictly increasing lexicographic byte order;
/// the id of a label is its position.
#[derive(Debug)]
pub struct LabelMap {
    names: Vec<String>,
}

impl View for LabelMap {
    type V = Seq<Seq<char>>;

    closed spec fn view(&self) -> Seq<Seq<char>> {
        self.names.deep_view()
    }
}

/// A strictly sorted sequence holds no name twice.
pub proof fn lemma_sorted_no_duplicates(names: Seq<Seq<char>>)
    requires
        strictly_sorted(names),
    ensures
        names.no_duplicates(),
{
    assert forall|i: int, j: int| 0 <= i < names.len() && 0 <= j < names.len() && i != j implies names[i]
        != names[j] by {
        lemma_text_order(names[i], names[j]);
        lemma_text_order(names[j], names[i]);
    }
}

/// Two strictly sorted sequences that hold the same names agree up to any
/// position both reach.
proof fn lemma_sorted_same_prefix(a: Seq<Seq<char>>, b: Seq<Seq<char>>, k: int)
    requires
        strictly_sorted(a),
        strictly_sorted(b),
        forall|l: Seq<char>| a.contains(l) <==> b.contains(l),
        0 <= k <= a.len(),
        k <= b.len(),
    ensures
        forall|i: int| 0 <= i < k ==> a[i] == b[i],
    decreases k,
{
    if k > 0 {
        lemma_sorted_same_prefix(a, b, k - 1);
        let x = a[k - 1];
        let y = b[k - 1];
        lemma_text_order(x, y);
        if text_lt(x, y) {
            // x occurs in b, and not before position k - 1, where b agrees with a
            assert(a.contains(x));
            let j = choose|j: int| 0 <= j < b.len() && b[j] == x;
            if j < k - 1 {
                assert(a[j] == b[j]);
                lemma_text_order(a[j], a[k - 1]);
            } else if j > k - 1 {
                lemma_text_order(b[k - 1], b[j]);
            }
        } else if text_lt(y, x) {
            assert(b.contains(y));
            let j = choose|j: int| 0 <= j < a.len() && a[j] == y;
            if j < k - 1 {
                assert(a[j] == b[j]);
                lemma_text_order(b[j], b[k - 1]);
            } else if j > k - 1 {
                lemma_text_order(a[k - 1], a[j]);
            }
        }
    }
}

/// A set of labels has one strictly sorted arrangement: two strictly sorted
/// sequences that hold the same names are the same sequence.
pub proof fn lemma_sorted_unique(a: Seq<Seq<char>>, b: Seq<Seq<char>>)
    requires
        strictly_sorted(a),
        strictly_sorted(b),
        forall|l: Seq<char>| a.contains(l) <==> b.contains(l),
    ensures
        a == b,
{
    lemma_sorted_no_duplicates(a);
    lemma_sorted_no_duplicates(b);
    a.unique_seq_to_set();
    b.unique_seq_to_set();
    assert(a.to_set() =~= b.to_set());
    lemma_sorted_same_prefix(a, b, a.len() as int);
    assert(a =~= b);
}

/// Whether `names` is the label map of the observations `entries`: their
/// distinct labels, in strictly increasing byte order.
pub open spec fn is_label_index(entries: Seq<ObservationView>, names: Seq<Seq<char>>) -> bool {
    &&& strictly_sorted(names)
    &&& forall|l: Seq<char>| names.contains(l) <==> labels_of(entries).contains(l)
}

/// A training split has one label map: two maps of the same split are the
/// same. The map is as long as the split has distinct labels, and the id of
/// each of its labels is the position of the label, so the ids run from zero
/// up to that number without a gap.
pub proof fn lemma_label_map_determined(
    entries: Seq<ObservationView>,
    first: Seq<Seq<char>>,
    second: Seq<Seq<char>>,
)
    requires
        is_label_index(entries, first),
        is_label_index(entries, second),
    ensures
        first == second,
        first.len() == labels_of(entries).to_set().len(),
        forall|i: int| 0 <= i < first.len() ==> first.index_of(#[trigger] first[i]) == i,
{
    lemma_sorted_unique(first, second);
    lemma_sorted_no_duplicates(first);
    first.unique_seq_to_set();
    assert(first.to_set() =~= labels_of(entries).to_set());
    assert forall|i: int| 0 <= i < first.len() implies first.index_of(#[trigger] first[i])
        == i by {
        let k = first.index_of(first[i]);
        assert(0 <= k < first.len() && first[k] == first[i]);
    }
}

/// Each name with its position as id.
pub open spec fn numbered(names: Seq<Seq<char>>) -> Seq<(Seq<char>, u64)> {
    Seq::new(names.len(), |i: int| (names[i], i as u64))
}

/// Why a list of labels and ids is no label map.
#[derive(Clone, Copy, Debug, PartialEq, Eq, Structural)]
pub enum LabelMapError {
    /// The text is not a map from labels to ids.
    Malformed,
    /// The label at position `index` does not carry `index` as its id.
    WrongId { index: usize },
    /// The label at position `index` does not come after the one before it.
    OutOfOrder { index: usize },
}

/// The position that an error speaks of.
pub open spec fn fault_index(e: LabelMapError) -> int {
    match e {
        LabelMapError::Malformed => 0,
        LabelMapError::WrongId { index } => index as int,
        LabelMapError::OutOfOrder { index } => index as int,
    }
}

/// What is wrong with the entry at position `i`, if anything: its id is
/// looked at first, then its place in the order.
pub open spec fn entry_fault(entries: Seq<(Seq<char>, u64)>, i: int) -> Option<LabelMapError> {
    if !(0 <= i < entries.len()) {
        None
    } else if entries[i].1 != i {
        Some(LabelMapError::WrongId { index: i as usize })
    } else if i > 0 && !text_lt(entries[i - 1].0, entries[i].0) {
        Some(LabelMapError::OutOfOrder { index: i as usize })
    } else {
        None
    }
}

impl LabelMap {
    #[verifier::type_invariant]
    spec fn ordered(self) -> bool {
        strictly_sorted(self.names.deep_view())
    }

    /// The id that the map gives `label`, if it holds it.
    pub open spec fn spec_id_of(self, label: Seq<char>) -> Option<int> {
        if self@.contains(label) {
            Some(self@.index_of(label))
        } else {
            None
        }
    }

    /// A map without labels.
    pub fn new() -> (map: LabelMap)
        ensures
            map@ == Seq::<Seq<char>>::empty(),
    {
        let map = LabelMap { names: Vec::new() };
        assert(map@ =~= Seq::<Seq<char>>::empty());
        map
    }

    /// The number of labels.
    pub fn len(&self) -> (n: usize)
        ensures
            n == self@.len(),
            strictly_sorted(self@),
    {
        proof {
            use_type_invariant(self);
        }
        self.names.len()
    }

    /// The id of `label`: its position among the labels of the map.
    pub fn id_of(&self, label: &str) -> (id: Option<usize>)
        ensures
            id matches Some(i) ==> i < self@.len() && self@[i as int] == label@,
            id is None <==> !self@.contains(label@),
            self.spec_id_of(label@) == match id {
                Some(i) => Some(i as int),
                None => None,
            },
    {
        proof {
            use_type_invariant(self);
        }
        let (found, at) = locate(&self.names, label);
        if found {
            proof {
                use_type_invariant(self);
                lemma_sorted_no_duplicates(self@);
                assert(self@.contains(label@));
                self@.index_of_first_ensures(label@);
                let k = self@.index_of(label@);
                assert(self@[k] == self@[at as int]);
            }
            Some(at)
        } else {
            None
        }
    }

    /// The label that carries `id`.
    pub fn label_of(&self, id: usize) -> (label: Option<&String>)
        ensures
            label matches Some(s) ==> id < self@.len() && s@ == self@[id as int],
            label is None <==> id >= self@.len(),
    {
        if id < self.names.len() {
            let s = &self.names[id];
            assert(self@[id as int] == self.names[id as int]@);
            Some(s)
        } else {
            None
        }
    }

    /// The label of the class that a model predicts, or `None` where the map
    /// has no label for it.
    pub fn label_of_class(&self, class: i64) -> (label: Option<&String>)
        ensures
            label matches Some(s) ==> 0 <= class < self@.len() && s@ == self@[class as int],
            label is None <==> !(0 <= class < self@.len()),
    {
        let n = self.names.len();
        if class < 0 || class as u64 >= n as u64 {
            None
        } else {
            self.label_of(class as usize)
        }
    }

    /// The labels with their ids, in the order of the ids.
    pub fn entries(&self) -> (entries: Vec<(String, u64)>)
        ensures
            entries.deep_view() == numbered(self@),
            strictly_sorted(self@),
    {
        proof {
            use_type_invariant(self);
        }
        let mut entries: Vec<(String, u64)> = Vec::new();
        let mut i: usize = 0;
        while i < self.names.len()
            invariant
                i <= self.names.len(),
                self@ == self.names.deep_view(),
                entries.deep_view() == numbered(self@.take(i as int)),
            decreases self.names.len() - i,
        {
            let ghost before = entries.deep_view();
            let name = self.names[i].clone();
            assert(name@ == self@[i as int]);
            entries.push((name, i as u64));
            assert(entries.deep_view() =~= before.push((self@[i as int], i as u64)));
            assert(numbered(self@.take(i + 1)) =~= numbered(self@.take(i as int)).push(
                (self@[i as int], i as u64),
            ));
            i += 1;
        }
        assert(self@.take(i as int) =~= self@);
        entries
    }

    /// The map that holds `entries`, which must list the labels in strictly
    /// increasing byte order, each with its position as id.
    pub fn from_entries(entries: &Vec<(String, u64)>) -> (r: Result<LabelMap, LabelMapError>)
        ensures
            match r {
                Ok(map) => entries.deep_view() == numbered(map@) && strictly_sorted(map@),
                Err(e) => {
                    &&& entry_fault(entries.deep_view(), fault_index(e)) == Some(e)
                    &&& forall|i: int|
                        0 <= i < fault_index(e) ==> entry_fault(entries.deep_view(), i) is None
                },
            },
    {
        let ghost listed = entries.deep_view();
        let mut names: Vec<String> = Vec::new();
        let mut i: usize = 0;
        while i < entries.len()
            invariant
                i <= entries.len(),
                listed == entries.deep_view(),
                names.len() == i,
                strictly_sorted(names.deep_view()),
                numbered(names.deep_view()) == listed.take(i as int),
                forall|k: int| 0 <= k < i ==> entry_fault(listed, k) is None,
            decreases entries.len() - i,
        {
            assert(listed[i as int] == (entries[i as int].0@, entries[i as int].1));
            if entries[i].1 != i as u64 {
                return Err(LabelMapError::WrongId { index: i });
            }
            if i > 0 {
                assert(listed[i - 1] == (entries[i - 1].0@, entries[i - 1].1));
                match rank_text(entries[i - 1].0.as_str(), entries[i].0.as_str()) {
                    Rank::Before => {},
                    _ => {
                        proof {
                            lemma_text_order(listed[i - 1].0, listed[i as int].0);
                            lemma_text_order(listed[i as int].0, listed[i - 1].0);
                        }
                        return Err(LabelMapError::OutOfOrder { index: i });
                    },
                }
            }
            let ghost before = names.deep_view();
            let name = entries[i].0.clone();
            names.push(name);
            proof {
                let after = names.deep_view();
                assert(after =~= before.push(listed[i as int].0));
                assert forall|a: int, b: int| 0 <= a < b < after.len() implies text_lt(
                    #[trigger] after[a],
                    #[trigger] after[b],
                ) by {
                    if b == i {
                        if a < i - 1 {
                            assert(numbered(before)[i - 1] == listed.take(i as int)[i - 1]);
                            lemma_text_lt_transitive(after[a], after[i - 1], after[b]);
                        } else {
                            assert(numbered(before)[a] == listed.take(i as int)[a]);
                        }
                    } else {
                        assert(after[a] == before[a] && after[b] == before[b]);
                    }
                }
                assert(numbered(after) =~= listed.take(i + 1)) by {
                    assert forall|k: int| 0 <= k < i + 1 implies numbered(after)[k]
                        == listed.take(i + 1)[k] by {
                        if k < i {
                            assert(numbered(before)[k] == listed.take(i as int)[k]);
                        }
                    }
                }
            }
            i += 1;
        }
        assert(listed.take(i as int) =~= listed);
        Ok(LabelMap { names })
    }

}

/// Where `label` stands among sorted `names`, or where it would have to be
/// inserted.
fn locate(names: &Vec<String>, label: &str) -> (r: (bool, usize))
    requires
        strictly_sorted(names.deep_view()),
    ensures
        r.1 <= names.len(),
        r.0 ==> r.1 < names.len() && names.deep_view()[r.1 as int] == label@,
        !r.0 ==> !names.deep_view().contains(label@),
        !r.0 ==> forall|i: int| 0 <= i < r.1 ==> text_lt(#[trigger] names.deep_view()[i], label@),
        !r.0 ==> forall|i: int|
            r.1 <= i < names.len() ==> text_lt(label@, #[trigger] names.deep_view()[i]),
{
    let ghost view = names.deep_view();
    let mut lo: usize = 0;
    let mut hi: usize = names.len();
    while lo < hi
        invariant
            lo <= hi <= names.len(),
            view == names.deep_view(),
            strictly_sorted(view),
            forall|i: int| 0 <= i < lo ==> text_lt(#[trigger] view[i], label@),
            forall|i: int| hi <= i < view.len() ==> text_lt(label@, #[trigger] view[i]),
        decreases hi - lo,
    {
        let mid: usize = lo + (hi - lo) / 2;
        let probe = rank_text(names[mid].as_str(), label);
        assert(view[mid as int] == names[mid as int]@);
        match probe {
            Rank::Same => {
                return (true, mid);
            },
            Rank::Before => {
                assert forall|i: int| 0 <= i < mid + 1 implies text_lt(#[trigger] view[i], label@) by {
                    if i < mid {
                        lemma_text_lt_transitive(view[i], view[mid as int], label@);
                    }
                }
                lo = mid + 1;
            },
            Rank::After => {
                proof {
                    lemma_text_order(view[mid as int], label@);
                }
                assert forall|i: int| mid <= i < view.len() implies text_lt(
                    label@,
                    #[trigger] view[i],
                ) by {
                    if i > mid {
                        lemma_text_lt_transitive(label@, view[mid as int], view[i]);
                    }
                }
                hi = mid;
            },
        }
    }
    proof {
        if view.contains(label@) {
            let j = choose|j: int| 0 <= j < view.len() && view[j] == label@;
            lemma_text_order(label@, label@);
        }
    }
    (false, lo)
}

/// Adds `label` to sorted `names` unless they hold it already.
fn insert_sorted(names: &mut Vec<String>, label: &str)
    requires
        strictly_sorted(old(names).deep_view()),
    ensures
        strictly_sorted(final(names).deep_view()),
        forall|l: Seq<char>|
            final(names).deep_view().contains(l) <==> (old(names).deep_view().contains(l) || l
                == label@),
{
    let (found, at) = locate(names, label);
    let ghost before = names.deep_view();
    if !found {
        let owned = label.to_owned();
        names.insert(at, owned);
        proof {
            let after = names.deep_view();
            assert(after =~= before.insert(at as int, label@));
            assert forall|i: int, j: int| 0 <= i < j < after.len() implies text_lt(
                #[trigger] after[i],
                #[trigger] after[j],
            ) by {
                if j < at {
                    assert(after[i] == before[i] && after[j] == before[j]);
                } else if j == at {
                    assert(after[i] == before[i]);
                } else if i < at {
                    assert(after[i] == before[i] && after[j] == before[j - 1]);
                } else if i == at {
                    assert(after[j] == before[j - 1]);
                } else {
                    assert(after[i] == before[i - 1] && after[j] == before[j - 1]);
                }
            }
            assert forall|l: Seq<char>| after.contains(l) <==> (before.contains(l) || l
                == label@) by {
                if after.contains(l) {
                    let k = choose|k: int| 0 <= k < after.len() && after[k] == l;
                    if k < at {
                        assert(before[k] == l);
                    } else if k > at {
                        assert(before[k - 1] == l);
                    }
                }
                if before.contains(l) {
                    let k = choose|k: int| 0 <= k < before.len() && before[k] == l;
                    if k < at {
                        assert(after[k] == l);
                    } else {
                        assert(after[k + 1] == l);
                    }
                }
                if l == label@ {
                    assert(after[at as int] == l);
                }
            }
        }
    } else {
        assert(before.contains(label@));
    }
}

/// Builds the label map of a training split: its distinct labels, sorted in
/// lexicographic byte order and numbered from zero.
pub fn build_label_index(entries: &[Observation]) -> (map: LabelMap)
    ensures
        is_label_index(entries.deep_view(), map@),
        map@.len() == labels_of(entries.deep_view()).to_set().len(),
{
    let mut names: Vec<String> = Vec::new();
    let ghost labels = labels_of(entries.deep_view());
    let mut i: usize = 0;
    while i < entries.len()
        invariant
            i <= entries.len(),
            labels == labels_of(entries.deep_view()),
            labels.len() == entries.len(),
            strictly_sorted(names.deep_view()),
            forall|l: Seq<char>|
                names.deep_view().contains(l) <==> labels.take(i as int).contains(l),
        decreases entries.len() - i,
    {
        insert_sorted(&mut names, entries[i].label.as_str());
        proof {
            let x = entries[i as int].label@;
            let seen = labels.take(i as int);
            let next = labels.take(i + 1);
            assert(labels[i as int] == x);
            assert forall|l: Seq<char>| names.deep_view().contains(l) <==> next.contains(l) by {
                if next.contains(l) {
                    let k = choose|k: int| 0 <= k < next.len() && next[k] == l;
                    if k < i {
                        assert(seen[k] == l);
                    }
                }
                if seen.contains(l) {
                    let k = choose|k: int| 0 <= k < seen.len() && seen[k] == l;
                    assert(next[k] == l);
                }
                if l == x {
                    assert(next[i as int] == l);
                }
            }
        }
        i += 1;
    }
    let map = LabelMap { names };
    proof {
        assert(labels.take(i as int) =~= labels);
        lemma_sorted_no_duplicates(map@);
        map@.unique_seq_to_set();
        assert(map@.to_set() =~= labels.to_set());
    }
    map
}

/// Whether `ids` is the encoding of `labels` under the map `names`.
pub open spec fn encodes(names: Seq<Seq<char>>, labels: Seq<Seq<char>>, ids: Seq<i64>) -> bool {
    &&& ids.len() == labels.len()
    &&& forall|i: int|
        0 <= i < ids.len() ==> 0 <= #[trigger] ids[i] < names.len() && names[ids[i] as int]
            == labels[i]
}

/// Whether the label at position `i` can be encoded: the map holds it, under
/// an id that fits a signed 64-bit integer.
pub open spec fn encodable(names: Seq<Seq<char>>, labels: Seq<Seq<char>>, i: int) -> bool {
    names.contains(labels[i]) && names.index_of(labels[i]) <= i64::MAX
}

/// Whether `error` is what encoding `labels` under `names` fails with: it
/// names the first label that cannot be encoded, and says why.
pub open spec fn fails_with(names: Seq<Seq<char>>, labels: Seq<Seq<char>>, error: LabelError) -> bool {
    match error {
        LabelError::UnseenLabel { index } => {
            &&& index < labels.len()
            &&& !names.contains(labels[index as int])
            &&& forall|i: int| 0 <= i < index ==> encodable(names, labels, i)
        },
        LabelError::IdOutOfRange { index } => {
            &&& index < labels.len()
            &&& names.contains(labels[index as int])
            &&& !encodable(names, labels, index as int)
            &&& forall|i: int| 0 <= i < index ==> encodable(names, labels, i)
        },
    }
}

/// Encodes the label of each observation as its id, in order.
///
/// Fails at the first observation whose label cannot be encoded: the map
/// does not hold it, or holds it under an id too large for the array.
pub fn build_label_array(entries: &[Observation], label_map: &LabelMap) -> (r: Result<
    Vec<i64>,
    LabelError,
>)
    ensures
        match r {
            Ok(ids) => {
                &&& encodes(label_map@, labels_of(entries.deep_view()), ids@)
                &&& forall|i: int|
                    0 <= i < entries.len() ==> encodable(
                        label_map@,
                        labels_of(entries.deep_view()),
                        i,
                    )
            },
            Err(error) => fails_with(label_map@, labels_of(entries.deep_view()), error),
        },
{
    let ghost labels = labels_of(entries.deep_view());
    let mut ids: Vec<i64> = Vec::new();
    let mut i: usize = 0;
    while i < entries.len()
        invariant
            i <= entries.len(),
            labels == labels_of(entries.deep_view()),
            labels.len() == entries.len(),
            encodes(label_map@, labels.take(i as int), ids@),
            forall|k: int| 0 <= k < i ==> encodable(label_map@, labels, k),
        decreases entries.len() - i,
    {
        assert(labels[i as int] == entries[i as int].label@);
        match label_map.id_of(entries[i].label.as_str()) {
            None => {
                return Err(LabelError::UnseenLabel { index: i });
            },
            Some(id) => {
                if id as u64 > i64::MAX as u64 {
                    return Err(LabelError::IdOutOfRange { index: i });
                }
                ids.push(id as i64);
                proof {
                    let seen = labels.take(i as int);
                    let next = labels.take(i + 1);
                    assert forall|k: int| 0 <= k < ids@.len() implies 0 <= #[trigger] ids@[k]
                        < label_map@.len() && label_map@[ids@[k] as int] == next[k] by {
                        if k < i {
                            assert(seen[k] == next[k]);
                        }
                    }
                }
            },
        }
        i += 1;
    }
    proof {
        assert(labels.take(i as int) =~= labels);
    }
    Ok(ids)
}

} // verus!
