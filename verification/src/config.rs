//! Non-secret client configuration: the default relay endpoint and the public
//! identity labels. Seed phrases have no place in it.

use vstd::prelude::*;

use crate::text::{
    blank, chars_of, contains_char, has_prefix, has_white_space, is_blank, is_white_space,
    strip_prefix,
};

verus! {

broadcast use vstd::string::group_string_axioms;

/// A public identity saved under a local label.
pub struct IdentityLabel {
    /// The public node ID of the identity.
    pub node_id: String,
    /// When the label was saved, in seconds since the Unix epoch.
    pub created_at: u64,
}

/// The content of an [`IdentityLabel`].
pub struct LabelView {
    pub node_id: Seq<char>,
    pub created_at: u64,
}

impl View for IdentityLabel {
    type V = LabelView;

    open spec fn view(&self) -> LabelView {
        LabelView { node_id: self.node_id@, created_at: self.created_at }
    }
}

impl IdentityLabel {
    /// A copy of the label.
    pub fn duplicate(&self) -> (r: IdentityLabel)
        ensures
            r@ == self@,
    {
        IdentityLabel { node_id: self.node_id.clone(), created_at: self.created_at }
    }
}

/// Lexicographic order of texts by code point, the order in which `String`s
/// compare (UTF-8 preserves code-point order).
pub open spec fn text_less(a: Seq<char>, b: Seq<char>) -> bool
    decreases a.len(),
{
    if b.len() == 0 {
        false
    } else if a.len() == 0 {
        true
    } else if a[0] < b[0] {
        true
    } else if a[0] == b[0] {
        text_less(a.drop_first(), b.drop_first())
    } else {
        false
    }
}

/// No text comes before itself.
pub proof fn lemma_text_less_irreflexive(a: Seq<char>)
    ensures
        !text_less(a, a),
    decreases a.len(),
{
    if a.len() > 0 {
        lemma_text_less_irreflexive(a.drop_first());
    }
}

/// Of two different texts, one comes before the other.
pub proof fn lemma_text_less_total(a: Seq<char>, b: Seq<char>)
    ensures
        a == b || text_less(a, b) || text_less(b, a),
    decreases a.len(),
{
    if a.len() > 0 && b.len() > 0 && a[0] == b[0] {
        lemma_text_less_total(a.drop_first(), b.drop_first());
        if a.drop_first() == b.drop_first() {
            assert(a =~= seq![a[0]] + a.drop_first());
            assert(b =~= seq![b[0]] + b.drop_first());
        }
    } else if a.len() > 0 && b.len() > 0 {
    } else if a.len() == 0 && b.len() == 0 {
        assert(a =~= b);
    }
}

/// Two texts never come each before the other.
pub proof fn lemma_text_less_asymmetric(a: Seq<char>, b: Seq<char>)
    ensures
        text_less(a, b) ==> !text_less(b, a),
    decreases a.len(),
{
    if a.len() > 0 && b.len() > 0 && a[0] == b[0] {
        lemma_text_less_asymmetric(a.drop_first(), b.drop_first());
    }
}

/// The order of texts is transitive.
pub proof fn lemma_text_less_transitive(a: Seq<char>, b: Seq<char>, c: Seq<char>)
    requires
        text_less(a, b),
        text_less(b, c),
    ensures
        text_less(a, c),
    decreases a.len(),
{
    if a.len() > 0 && b.len() > 0 && c.len() > 0 && a[0] == b[0] && b[0] == c[0] {
        lemma_text_less_transitive(a.drop_first(), b.drop_first(), c.drop_first());
    }
}

/// `text_less` on strings.
pub fn less_text(a: &str, b: &str) -> (r: bool)
    ensures
        r == text_less(a@, b@),
{
    let ac = chars_of(a);
    let bc = chars_of(b);
    let mut i: usize = 0;
    assert(ac@.skip(0) =~= ac@);
    assert(bc@.skip(0) =~= bc@);
    while i < ac.len() && i < bc.len() && ac[i] == bc[i]
        invariant
            i <= ac@.len(),
            i <= bc@.len(),
            ac@ == a@,
            bc@ == b@,
            text_less(a@, b@) == text_less(ac@.skip(i as int), bc@.skip(i as int)),
        decreases ac@.len() - i,
    {
        assert(ac@.skip(i as int).drop_first() =~= ac@.skip(i + 1));
        assert(bc@.skip(i as int).drop_first() =~= bc@.skip(i + 1));
        i += 1;
    }
    if i == bc.len() {
        false
    } else if i == ac.len() {
        true
    } else {
        ac[i] < bc[i]
    }
}

/// The names of an ordered list of labels.
pub open spec fn names_of(s: Seq<(Seq<char>, LabelView)>) -> Seq<Seq<char>> {
    s.map_values(|p: (Seq<char>, LabelView)| p.0)
}

/// The names are in strictly ascending order (hence all different).
pub open spec fn strictly_ascending(names: Seq<Seq<char>>) -> bool {
    forall|i: int, j: int| 0 <= i < j < names.len() ==> text_less(names[i], names[j])
}

/// A position of name `k` in an ordered list.
pub open spec fn position_of(s: Seq<(Seq<char>, LabelView)>, k: Seq<char>) -> int {
    choose|j: int| 0 <= j < s.len() && s[j].0 == k
}

/// The label kept under name `k` in an ordered list.
pub open spec fn label_named(s: Seq<(Seq<char>, LabelView)>, k: Seq<char>) -> LabelView {
    s[position_of(s, k)].1
}

/// The labels of an ordered list, by name.
pub open spec fn label_map(s: Seq<(Seq<char>, LabelView)>) -> Map<Seq<char>, LabelView> {
    Map::new(|k: Seq<char>| names_of(s).contains(k), |k: Seq<char>| label_named(s, k))
}

proof fn lemma_label_map_at(s: Seq<(Seq<char>, LabelView)>, i: int)
    requires
        strictly_ascending(names_of(s)),
        0 <= i < s.len(),
    ensures
        label_map(s).contains_key(s[i].0),
        label_map(s)[s[i].0] == s[i].1,
{
    assert(names_of(s)[i] == s[i].0);
    let k = s[i].0;
    assert(0 <= i < s.len() && s[i].0 == k);
    let j = position_of(s, k);
    assert(0 <= j < s.len() && s[j].0 == k);
    if j != i {
        assert(names_of(s)[j] == s[j].0);
        lemma_text_less_irreflexive(k);
        if j < i {
            assert(text_less(names_of(s)[j], names_of(s)[i]));
        } else {
            assert(text_less(names_of(s)[i], names_of(s)[j]));
        }
    }
    assert(names_of(s).contains(k));
    assert(j == i);
    assert(label_named(s, k) == s[j].1);
    assert(label_map(s)[k] == label_named(s, k));
}

proof fn lemma_label_map_has(s: Seq<(Seq<char>, LabelView)>, k: Seq<char>)
    ensures
        label_map(s).contains_key(k) <==> exists|i: int| 0 <= i < s.len() && s[i].0 == k,
{
    if label_map(s).contains_key(k) {
        let i = choose|i: int| 0 <= i < names_of(s).len() && names_of(s)[i] == k;
        assert(s[i].0 == k);
    }
    if exists|i: int| 0 <= i < s.len() && s[i].0 == k {
        let i = choose|i: int| 0 <= i < s.len() && s[i].0 == k;
        assert(names_of(s)[i] == k);
    }
}

proof fn lemma_insert_at(s: Seq<(Seq<char>, LabelView)>, i: int, p: (Seq<char>, LabelView))
    requires
        strictly_ascending(names_of(s)),
        0 <= i <= s.len(),
        forall|j: int| 0 <= j < i ==> text_less(#[trigger] s[j].0, p.0),
        forall|j: int| i <= j < s.len() ==> text_less(p.0, #[trigger] s[j].0),
    ensures
        strictly_ascending(names_of(s.insert(i, p))),
        label_map(s.insert(i, p)) == label_map(s).insert(p.0, p.1),
{
    let t = s.insert(i, p);
    assert forall|a: int, b: int| 0 <= a < b < t.len() implies text_less(
        names_of(t)[a],
        names_of(t)[b],
    ) by {
        assert(names_of(t)[a] == t[a].0);
        assert(names_of(t)[b] == t[b].0);
        if b < i {
            assert(names_of(s)[a] == s[a].0);
            assert(names_of(s)[b] == s[b].0);
        } else if a < i && b == i {
        } else if a < i {
            assert(names_of(s)[a] == s[a].0);
            assert(names_of(s)[b - 1] == s[b - 1].0);
        } else if a == i {
        } else {
            assert(names_of(s)[a - 1] == s[a - 1].0);
            assert(names_of(s)[b - 1] == s[b - 1].0);
        }
    }
    let m = label_map(s).insert(p.0, p.1);
    assert forall|k: Seq<char>| label_map(t).contains_key(k) <==> m.contains_key(k) by {
        lemma_label_map_has(t, k);
        lemma_label_map_has(s, k);
        if label_map(t).contains_key(k) {
            let x = choose|x: int| 0 <= x < t.len() && t[x].0 == k;
            if x > i {
                assert(s[x - 1].0 == k);
            } else if x < i {
                assert(s[x].0 == k);
            }
        }
        if label_map(s).contains_key(k) {
            let x = choose|x: int| 0 <= x < s.len() && s[x].0 == k;
            if x < i {
                assert(t[x].0 == k);
            } else {
                assert(t[x + 1].0 == k);
            }
        }
        if k == p.0 {
            assert(t[i].0 == k);
        }
    }
    assert forall|k: Seq<char>| #[trigger] label_map(t).contains_key(k) implies label_map(t)[k]
        == m[k] by {
        if k == p.0 {
            lemma_label_map_at(t, i);
        } else {
            lemma_label_map_has(s, k);
            lemma_label_map_has(t, k);
            let x = choose|x: int| 0 <= x < s.len() && s[x].0 == k;
            lemma_label_map_at(s, x);
            if x < i {
                lemma_label_map_at(t, x);
            } else {
                lemma_label_map_at(t, x + 1);
            }
        }
    }
    assert(label_map(t) =~= m);
}

proof fn lemma_update_at(s: Seq<(Seq<char>, LabelView)>, i: int, p: (Seq<char>, LabelView))
    requires
        strictly_ascending(names_of(s)),
        0 <= i < s.len(),
        s[i].0 == p.0,
    ensures
        strictly_ascending(names_of(s.update(i, p))),
        label_map(s.update(i, p)) == label_map(s).insert(p.0, p.1),
{
    let t = s.update(i, p);
    assert(names_of(t) =~= names_of(s));
    let m = label_map(s).insert(p.0, p.1);
    assert forall|k: Seq<char>| label_map(t).contains_key(k) <==> m.contains_key(k) by {
        lemma_label_map_has(t, k);
        lemma_label_map_has(s, k);
        if label_map(t).contains_key(k) {
            let x = choose|x: int| 0 <= x < t.len() && t[x].0 == k;
            assert(s[x].0 == k);
        }
        if label_map(s).contains_key(k) {
            let x = choose|x: int| 0 <= x < s.len() && s[x].0 == k;
            assert(t[x].0 == k);
        }
    }
    assert forall|k: Seq<char>| #[trigger] label_map(t).contains_key(k) implies label_map(t)[k]
        == m[k] by {
        if k == p.0 {
            lemma_label_map_at(t, i);
        } else {
            lemma_label_map_has(s, k);
            let x = choose|x: int| 0 <= x < s.len() && s[x].0 == k;
            lemma_label_map_at(s, x);
            lemma_label_map_at(t, x);
        }
    }
    assert(label_map(t) =~= m);
}

proof fn lemma_remove_at(s: Seq<(Seq<char>, LabelView)>, i: int)
    requires
        strictly_ascending(names_of(s)),
        0 <= i < s.len(),
    ensures
        strictly_ascending(names_of(s.remove(i))),
        label_map(s.remove(i)) == label_map(s).remove(s[i].0),
{
    let t = s.remove(i);
    let name = s[i].0;
    assert forall|a: int, b: int| 0 <= a < b < t.len() implies text_less(
        names_of(t)[a],
        names_of(t)[b],
    ) by {
        assert(names_of(t)[a] == t[a].0);
        assert(names_of(t)[b] == t[b].0);
        let a2 = if a < i { a } else { a + 1 };
        let b2 = if b < i { b } else { b + 1 };
        assert(names_of(s)[a2] == s[a2].0);
        assert(names_of(s)[b2] == s[b2].0);
    }
    let m = label_map(s).remove(name);
    assert forall|k: Seq<char>| label_map(t).contains_key(k) <==> m.contains_key(k) by {
        lemma_label_map_has(t, k);
        lemma_label_map_has(s, k);
        if label_map(t).contains_key(k) {
            let x = choose|x: int| 0 <= x < t.len() && t[x].0 == k;
            let x2 = if x < i { x } else { x + 1 };
            assert(s[x2].0 == k);
            assert(names_of(s)[x2] == s[x2].0);
            assert(names_of(s)[i] == s[i].0);
            lemma_text_less_irreflexive(k);
            assert(k != name);
        }
        if m.contains_key(k) {
            let x = choose|x: int| 0 <= x < s.len() && s[x].0 == k;
            assert(x != i);
            if x < i {
                assert(t[x].0 == k);
            } else {
                assert(t[x - 1].0 == k);
            }
        }
    }
    assert forall|k: Seq<char>| #[trigger] label_map(t).contains_key(k) implies label_map(t)[k]
        == m[k] by {
        lemma_label_map_has(t, k);
        let x = choose|x: int| 0 <= x < t.len() && t[x].0 == k;
        let x2 = if x < i { x } else { x + 1 };
        assert(s[x2] == t[x]);
        assert(names_of(s)[x2] == s[x2].0);
        assert(names_of(s)[i] == s[i].0);
        lemma_text_less_irreflexive(k);
        assert(k != name);
        lemma_label_map_at(s, x2);
        lemma_label_map_at(t, x);
    }
    assert(label_map(t) =~= m);
}

proof fn lemma_label_count(s: Seq<(Seq<char>, LabelView)>)
    requires
        strictly_ascending(names_of(s)),
    ensures
        label_map(s).dom().finite(),
        label_map(s).len() == s.len(),
    decreases s.len(),
{
    if s.len() == 0 {
        assert(label_map(s).dom() =~= Set::<Seq<char>>::empty());
    } else {
        let t = s.drop_last();
        assert(strictly_ascending(names_of(t))) by {
            assert forall|a: int, b: int| 0 <= a < b < t.len() implies text_less(
                names_of(t)[a],
                names_of(t)[b],
            ) by {
                assert(names_of(t)[a] == names_of(s)[a]);
                assert(names_of(t)[b] == names_of(s)[b]);
            }
        }
        lemma_label_count(t);
        let last = s.last();
        assert forall|j: int| 0 <= j < t.len() implies text_less(#[trigger] t[j].0, last.0) by {
            assert(names_of(s)[j] == s[j].0);
            assert(names_of(s)[s.len() - 1] == s[s.len() - 1].0);
        }
        lemma_insert_at(t, t.len() as int, last);
        assert(t.insert(t.len() as int, last) =~= s);
        lemma_label_map_has(t, last.0);
        if label_map(t).contains_key(last.0) {
            let x = choose|x: int| 0 <= x < t.len() && t[x].0 == last.0;
            lemma_text_less_irreflexive(last.0);
        }
    }
}

/// What a configuration holds.
#[verifier::ext_equal]
pub struct ConfigView {
    pub version: u8,
    pub endpoint: Option<Seq<char>>,
    /// The public identity labels, by name.
    pub labels: Map<Seq<char>, LabelView>,
}

/// The configuration with `node_id`, created at `created_at`, saved under the
/// label `name` (replacing any label of that name).
pub open spec fn labelled(c: ConfigView, name: Seq<char>, node_id: Seq<char>, created_at: u64) -> ConfigView {
    ConfigView {
        labels: c.labels.insert(name, LabelView { node_id, created_at }),
        ..c
    }
}

/// The configuration without the label `name`.
pub open spec fn unlabelled(c: ConfigView, name: Seq<char>) -> ConfigView {
    ConfigView { labels: c.labels.remove(name), ..c }
}

/// The labels of `m` with those of the ordered list `s` saved over them, one
/// after the other.
pub open spec fn labels_inserted(
    m: Map<Seq<char>, LabelView>,
    s: Seq<(Seq<char>, LabelView)>,
) -> Map<Seq<char>, LabelView>
    decreases s.len(),
{
    if s.len() == 0 {
        m
    } else {
        labels_inserted(m, s.drop_last()).insert(s.last().0, s.last().1)
    }
}

proof fn lemma_ascending_drop_last(s: Seq<(Seq<char>, LabelView)>)
    requires
        s.len() > 0,
        strictly_ascending(names_of(s)),
    ensures
        strictly_ascending(names_of(s.drop_last())),
        forall|j: int| 0 <= j < s.len() - 1 ==> text_less(#[trigger] s[j].0, s.last().0),
{
    let t = s.drop_last();
    assert forall|a: int, b: int| 0 <= a < b < t.len() implies text_less(
        names_of(t)[a],
        names_of(t)[b],
    ) by {
        assert(names_of(t)[a] == names_of(s)[a]);
        assert(names_of(t)[b] == names_of(s)[b]);
    }
    assert forall|j: int| 0 <= j < s.len() - 1 implies text_less(#[trigger] s[j].0, s.last().0) by {
        assert(names_of(s)[j] == s[j].0);
        assert(names_of(s)[s.len() - 1] == s[s.len() - 1].0);
    }
}

/// Saving the labels of a strictly ascending list one by one into no labels
/// gives exactly the labels of the list: the list that [`Config::labels`]
/// hands out builds the same labels back.
pub proof fn law_labels_rebuild(s: Seq<(Seq<char>, LabelView)>)
    requires
        strictly_ascending(names_of(s)),
    ensures
        labels_inserted(Map::empty(), s) == label_map(s),
    decreases s.len(),
{
    if s.len() == 0 {
        assert(label_map(s) =~= Map::<Seq<char>, LabelView>::empty());
    } else {
        let t = s.drop_last();
        lemma_ascending_drop_last(s);
        law_labels_rebuild(t);
        lemma_insert_at(t, t.len() as int, s.last());
        assert(t.insert(t.len() as int, s.last()) =~= s);
    }
}

/// Non-secret client configuration.
pub struct Config {
    /// Format version of the saved configuration.
    version: u8,
    /// Default relay endpoint; `None` means the SDK's own default.
    endpoint: Option<String>,
    /// Public identity labels, in ascending order of name.
    identities: Vec<(String, IdentityLabel)>,
}

/// The labels of a list, as (name, label) views.
pub open spec fn entry_views(v: Seq<(String, IdentityLabel)>) -> Seq<(Seq<char>, LabelView)> {
    v.map_values(|p: (String, IdentityLabel)| (p.0@, p.1@))
}

impl Config {
    /// The labels in the order they are kept.
    closed spec fn entries(&self) -> Seq<(Seq<char>, LabelView)> {
        entry_views(self.identities@)
    }

    /// Labels are kept in strictly ascending order of name.
    #[verifier::type_invariant]
    closed spec fn ordered(&self) -> bool {
        strictly_ascending(names_of(self.entries()))
    }
}

impl View for Config {
    type V = ConfigView;

    closed spec fn view(&self) -> ConfigView {
        ConfigView {
            version: self.version,
            endpoint: match self.endpoint {
                Some(e) => Some(e@),
                None => None,
            },
            labels: label_map(self.entries()),
        }
    }
}

impl Config {
    /// An empty configuration: format version 0, no endpoint, no labels (what a
    /// missing configuration file stands for).
    pub fn new() -> (r: Config)
        ensures
            r@.version == 0,
            r@.endpoint is None,
            r@.labels == Map::<Seq<char>, LabelView>::empty(),
    {
        Config::with_settings(0, None)
    }

    /// A configuration with the given version and endpoint and no labels.
    pub fn with_settings(version: u8, endpoint: Option<String>) -> (r: Config)
        ensures
            r@.version == version,
            r@.endpoint == match endpoint {
                Some(e) => Some(e@),
                None => None::<Seq<char>>,
            },
            r@.labels == Map::<Seq<char>, LabelView>::empty(),
    {
        let identities: Vec<(String, IdentityLabel)> = Vec::new();
        assert(entry_views(identities@) =~= Seq::<(Seq<char>, LabelView)>::empty());
        let r = Config { version, endpoint, identities };
        assert(label_map(r.entries()) =~= Map::<Seq<char>, LabelView>::empty());
        r
    }

    /// A configuration with the given version and endpoint, and the labels of
    /// `labels` saved one after the other (a later label replaces an earlier
    /// one of the same name).
    pub fn from_labels(version: u8, endpoint: Option<String>, labels: Vec<(String, IdentityLabel)>) -> (r:
        Config)
        ensures
            r@.version == version,
            r@.endpoint == match endpoint {
                Some(e) => Some(e@),
                None => None::<Seq<char>>,
            },
            r@.labels == labels_inserted(Map::empty(), entry_views(labels@)),
            strictly_ascending(names_of(entry_views(labels@))) ==> r@.labels == label_map(
                entry_views(labels@),
            ),
    {
        let ghost src = entry_views(labels@);
        let mut r = Config::with_settings(version, endpoint);
        let mut rest = labels;
        let mut taken: Vec<(String, IdentityLabel)> = Vec::new();
        // `taken` holds the labels of `labels` still to save, last first.
        while rest.len() > 0
            invariant
                src.len() == rest@.len() + taken@.len(),
                entry_views(rest@) == src.take(rest@.len() as int),
                forall|j: int|
                    0 <= j < taken@.len() ==> (#[trigger] entry_views(taken@)[j]) == src[src.len()
                        - 1 - j],
            decreases rest@.len(),
        {
            let ghost before_rest = rest@;
            let ghost before_taken = taken@;
            let item = rest.pop().unwrap();
            taken.push(item);
            assert(entry_views(rest@) =~= src.take(rest@.len() as int));
            assert forall|j: int| 0 <= j < taken@.len() implies (#[trigger] entry_views(
                taken@,
            )[j]) == src[src.len() - 1 - j] by {
                if j < before_taken.len() {
                    assert(entry_views(taken@)[j] == entry_views(before_taken)[j]);
                } else {
                    assert(entry_views(before_rest)[before_rest.len() - 1] == src[before_rest.len()
                        - 1]);
                }
            }
        }
        let n = taken.len();
        let mut i: usize = 0;
        while i < n
            invariant
                n == src.len(),
                taken@.len() == n - i,
                forall|j: int|
                    0 <= j < taken@.len() ==> (#[trigger] entry_views(taken@)[j]) == src[src.len()
                        - 1 - j],
                r@.version == version,
                r@.endpoint == match endpoint {
                    Some(e) => Some(e@),
                    None => None::<Seq<char>>,
                },
                r@.labels == labels_inserted(Map::empty(), src.take(i as int)),
            decreases n - i,
        {
            let ghost before_taken = taken@;
            let (name, label) = taken.pop().unwrap();
            assert(entry_views(before_taken)[before_taken.len() - 1] == src[i as int]);
            assert forall|j: int| 0 <= j < taken@.len() implies (#[trigger] entry_views(
                taken@,
            )[j]) == src[src.len() - 1 - j] by {
                assert(entry_views(taken@)[j] == entry_views(before_taken)[j]);
            }
            r.insert_label(name, label);
            assert(src.take(i + 1).drop_last() =~= src.take(i as int));
            i += 1;
        }
        assert(src.take(n as int) =~= src);
        proof {
            if strictly_ascending(names_of(src)) {
                law_labels_rebuild(src);
            }
        }
        r
    }

    /// Format version of the saved configuration.
    pub fn version(&self) -> (r: u8)
        ensures
            r == self@.version,
    {
        self.version
    }

    /// Default relay endpoint; `None` means the SDK's own default.
    pub fn endpoint(&self) -> (r: Option<String>)
        ensures
            match r {
                Some(e) => self@.endpoint == Some(e@),
                None => self@.endpoint is None,
            },
    {
        self.endpoint.clone()
    }

    /// Saves `label` under `name`, replacing any label already saved under it.
    pub fn insert_label(&mut self, name: String, label: IdentityLabel)
        ensures
            final(self)@.version == old(self)@.version,
            final(self)@.endpoint == old(self)@.endpoint,
            final(self)@.labels == old(self)@.labels.insert(name@, label@),
    {
        proof {
            use_type_invariant(&*self);
        }
        let ghost s = self.entries();
        let ghost p = (name@, label@);
        let mut ids: Vec<(String, IdentityLabel)> = Vec::new();
        std::mem::swap(&mut ids, &mut self.identities);
        assert(entry_views(ids@) == s);
        let n = ids.len();
        let mut i: usize = 0;
        while i < n && less_text(ids[i].0.as_str(), name.as_str())
            invariant
                i <= n == ids@.len(),
                s == entry_views(ids@),
                strictly_ascending(names_of(s)),
                forall|j: int| 0 <= j < i ==> text_less(#[trigger] s[j].0, name@),
            decreases n - i,
        {
            assert(s[i as int].0 == ids@[i as int].0@);
            i += 1;
        }
        if i < n && ids[i].0 == name {
            proof {
                lemma_update_at(s, i as int, p);
            }
            ids.set(i, (name, label));
            assert(entry_views(ids@) =~= s.update(i as int, p));
        } else {
            proof {
                assert forall|j: int| i <= j < s.len() implies text_less(p.0, #[trigger] s[j].0) by {
                    assert(s[i as int].0 == ids@[i as int].0@);
                    lemma_text_less_total(s[i as int].0, p.0);
                    if j > i {
                        assert(names_of(s)[i as int] == s[i as int].0);
                        assert(names_of(s)[j] == s[j].0);
                        lemma_text_less_transitive(p.0, s[i as int].0, s[j].0);
                    }
                }
                lemma_insert_at(s, i as int, p);
            }
            ids.insert(i, (name, label));
            assert(entry_views(ids@) =~= s.insert(i as int, p));
        }
        self.identities = ids;
    }

    /// Removes the label saved under `name`, returning it; `None` when there is
    /// no such label.
    pub fn remove_label(&mut self, name: &str) -> (r: Option<IdentityLabel>)
        ensures
            final(self)@.version == old(self)@.version,
            final(self)@.endpoint == old(self)@.endpoint,
            final(self)@.labels == old(self)@.labels.remove(name@),
            match r {
                Some(l) => old(self)@.labels.contains_key(name@) && l@ == old(self)@.labels[name@],
                None => !old(self)@.labels.contains_key(name@),
            },
    {
        proof {
            use_type_invariant(&*self);
        }
        let ghost s = self.entries();
        let wanted: String = name.to_owned();
        let mut ids: Vec<(String, IdentityLabel)> = Vec::new();
        std::mem::swap(&mut ids, &mut self.identities);
        let n = ids.len();
        let mut i: usize = 0;
        let mut found = false;
        while i < n
            invariant_except_break
                !found,
            invariant
                i <= n == ids@.len(),
                s == entry_views(ids@),
                wanted@ == name@,
                strictly_ascending(names_of(s)),
                forall|j: int| 0 <= j < i ==> #[trigger] s[j].0 != name@,
            ensures
                found ==> i < n && s[i as int].0 == name@,
                !found ==> i == n,
            decreases n - i,
        {
            if ids[i].0 == wanted {
                assert(s[i as int].0 == name@);
                found = true;
                break;
            }
            i += 1;
        }
        if found {
            proof {
                lemma_remove_at(s, i as int);
                lemma_label_map_at(s, i as int);
            }
            let (_, label) = ids.remove(i);
            assert(entry_views(ids@) =~= s.remove(i as int));
            self.identities = ids;
            Some(label)
        } else {
            proof {
                lemma_label_map_has(s, name@);
                assert(label_map(s).remove(name@) =~= label_map(s));
            }
            self.identities = ids;
            None
        }
    }

    /// The saved labels in ascending order of name, the order in which they
    /// are listed.
    pub fn labels(&self) -> (r: Vec<(String, IdentityLabel)>)
        ensures
            strictly_ascending(names_of(entry_views(r@))),
            label_map(entry_views(r@)) == self@.labels,
    {
        proof {
            use_type_invariant(self);
        }
        let mut out: Vec<(String, IdentityLabel)> = Vec::new();
        let n = self.identities.len();
        let mut i: usize = 0;
        while i < n
            invariant
                i <= n == self.identities@.len(),
                entry_views(out@) == self.entries().take(i as int),
            decreases n - i,
        {
            let name = self.identities[i].0.clone();
            let label = self.identities[i].1.duplicate();
            let ghost before = out@;
            out.push((name, label));
            assert(self.entries()[i as int] == (name@, label@));
            assert(entry_views(out@) =~= entry_views(before).push((name@, label@)));
            assert(entry_views(out@) =~= self.entries().take(i + 1));
            i += 1;
        }
        assert(self.entries().take(n as int) =~= self.entries());
        out
    }

    /// Replaces the default endpoint; nothing else changes.
    pub fn set_endpoint(&mut self, endpoint: Option<String>)
        ensures
            final(self)@ == (ConfigView {
                endpoint: match endpoint {
                    Some(e) => Some(e@),
                    None => None,
                },
                ..old(self)@
            }),
    {
        proof {
            use_type_invariant(&*self);
        }
        self.endpoint = endpoint;
    }

    /// The default endpoint as shown to the user: the endpoint, or
    /// `SDK default` when none is set.
    pub fn endpoint_text(&self) -> (r: String)
        ensures
            r@ == match self@.endpoint {
                Some(e) => e,
                None => "SDK default"@,
            },
    {
        match &self.endpoint {
            Some(e) => e.clone(),
            None => "SDK default".to_owned(),
        }
    }

    /// Number of saved labels.
    pub fn label_count(&self) -> (r: usize)
        ensures
            r == self@.labels.len(),
    {
        proof {
            use_type_invariant(self);
            lemma_label_count(self.entries());
        }
        self.identities.len()
    }
}

/// Format version written when a saved configuration does not name one.
pub fn config_version() -> (r: u8)
    ensures
        r == 1,
{
    1
}

/// Why an endpoint is refused.
#[derive(Debug, PartialEq, Eq)]
pub enum EndpointError {
    /// It does not start with `wss://`.
    NotSecure,
    /// Its host part is empty, starts with `/`, holds a fragment (`#`) or white space.
    NotAbsolute,
}

impl EndpointError {
    /// The message shown to the user.
    pub fn message(&self) -> (r: &'static str)
        ensures
            r@ == match self {
                EndpointError::NotSecure => "endpoint must start with wss://"@,
                EndpointError::NotAbsolute => "endpoint must be an absolute wss:// URL without a fragment"@,
            },
    {
        match self {
            EndpointError::NotSecure => "endpoint must start with wss://",
            EndpointError::NotAbsolute => "endpoint must be an absolute wss:// URL without a fragment",
        }
    }
}

/// The part of a secure endpoint after its `wss://` scheme.
pub open spec fn endpoint_host(value: Seq<char>) -> Seq<char> {
    value.skip("wss://"@.len() as int)
}

/// A host part fit for a relay endpoint: not empty, not starting with `/`,
/// without a fragment and without white space.
pub open spec fn acceptable_host(host: Seq<char>) -> bool {
    &&& host.len() > 0
    &&& host[0] != '/'
    &&& !host.contains('#')
    &&& !exists|i: int| 0 <= i < host.len() && is_white_space(#[trigger] host[i])
}

/// The endpoint is an absolute `wss://` URL without a fragment.
pub open spec fn valid_endpoint(value: Seq<char>) -> bool {
    has_prefix(value, "wss://"@) && acceptable_host(endpoint_host(value))
}

/// Accepts only secure (`wss://`) relay endpoints with a host and no fragment.
pub fn validate_endpoint(value: &str) -> (r: Result<(), EndpointError>)
    ensures
        r is Ok <==> valid_endpoint(value@),
        r == Err::<(), EndpointError>(EndpointError::NotSecure) <==> !has_prefix(value@, "wss://"@),
{
    let host = match strip_prefix(value, "wss://") {
        Some(host) => host,
        None => {
            return Err(EndpointError::NotSecure);
        },
    };
    let hs = host.as_str();
    let chars = chars_of(hs);
    if chars.len() == 0 || chars[0] == '/' || contains_char(hs, '#') || has_white_space(hs) {
        return Err(EndpointError::NotAbsolute);
    }
    Ok(())
}

/// The endpoint to use: the override when given, else the configured one;
/// whichever it is must be valid.
pub fn endpoint(override_endpoint: Option<String>, configured: Option<String>) -> (r: Result<
    Option<String>,
    EndpointError,
>)
    ensures
        ({
            let chosen = match override_endpoint {
                Some(e) => Some(e),
                None => configured,
            };
            match chosen {
                None => r == Ok::<Option<String>, EndpointError>(None),
                Some(e) => match r {
                    Ok(x) => valid_endpoint(e@) && x == Some(e),
                    Err(err) => !valid_endpoint(e@) && (err == EndpointError::NotSecure
                        <==> !has_prefix(e@, "wss://"@)),
                },
            }
        }),
{
    let chosen = match override_endpoint {
        Some(e) => Some(e),
        None => configured,
    };
    match chosen {
        None => Ok(None),
        Some(e) => match validate_endpoint(e.as_str()) {
            Ok(()) => Ok(Some(e)),
            Err(err) => Err(err),
        },
    }
}

/// Why a label cannot be saved.
#[derive(Debug, PartialEq, Eq)]
pub enum LabelError {
    /// The label is empty or only white space.
    EmptyLabel,
}

impl LabelError {
    /// The message shown to the user.
    pub fn message(&self) -> (r: &'static str)
        ensures
            r@ == "identity label cannot be empty"@,
    {
        "identity label cannot be empty"
    }
}

/// Saves the public node ID `node_id` under the label `name`, created at
/// `created_at`; a label that is blank is refused and nothing changes.
pub fn label(config: &mut Config, name: String, node_id: String, created_at: u64) -> (r: Result<
    (),
    LabelError,
>)
    ensures
        r is Err <==> is_blank(name@),
        r is Err ==> r == Err::<(), LabelError>(LabelError::EmptyLabel) && final(config)@ == old(
            config,
        )@,
        r is Ok ==> final(config)@ == labelled(old(config)@, name@, node_id@, created_at),
{
    if blank(name.as_str()) {
        return Err(LabelError::EmptyLabel);
    }
    config.insert_label(name, IdentityLabel { node_id, created_at });
    Ok(())
}

/// Labelling a name that has no label and then removing that label gives the
/// configuration back as it was (see [`label`] and `commands::remove`).
pub proof fn law_remove_undoes_label(
    c: ConfigView,
    name: Seq<char>,
    node_id: Seq<char>,
    created_at: u64,
)
    requires
        !c.labels.contains_key(name),
    ensures
        unlabelled(labelled(c, name, node_id, created_at), name) == c,
{
    assert(unlabelled(labelled(c, name, node_id, created_at), name) =~= c);
}

/// After [`label`], the name reads back the node ID and time just saved, and
/// every other label is as it was; labelling a name again replaces the
/// earlier label.
pub proof fn law_label_read_back(
    c: ConfigView,
    name: Seq<char>,
    node_id: Seq<char>,
    created_at: u64,
    other: Seq<char>,
    node_id2: Seq<char>,
    created_at2: u64,
)
    ensures
        labelled(c, name, node_id, created_at).labels[name] == (LabelView { node_id, created_at }),
        other != name ==> (labelled(c, name, node_id, created_at).labels.contains_key(other)
            == c.labels.contains_key(other) && labelled(c, name, node_id, created_at).labels[other]
            == c.labels[other]),
        labelled(labelled(c, name, node_id, created_at), name, node_id2, created_at2) == labelled(
            c,
            name,
            node_id2,
            created_at2,
        ),
{
    assert(labelled(labelled(c, name, node_id, created_at), name, node_id2, created_at2) =~= labelled(
        c,
        name,
        node_id2,
        created_at2,
    ));
}

/// Every endpoint that validation accepts is a `wss://` URL with a host.
pub proof fn law_accepted_endpoints_are_secure(value: Seq<char>)
    requires
        valid_endpoint(value),
    ensures
        has_prefix(value, "wss://"@),
        value.len() > "wss://"@.len(),
{
}

/// Exactly the `wss://` URLs whose host part is non-empty, does not start
/// with `/`, and holds no `#` and no white space are accepted: any other
/// character in the host part (such as `?`, `:`, `@` or `/`) is allowed.
pub proof fn law_endpoint_acceptance(h: Seq<char>)
    ensures
        valid_endpoint("wss://"@ + h) <==> {
            &&& h.len() > 0
            &&& h[0] != '/'
            &&& forall|i: int| 0 <= i < h.len() ==> #[trigger] h[i] != '#' && !is_white_space(h[i])
        },
{
    let v = "wss://"@ + h;
    assert(v.take("wss://"@.len() as int) =~= "wss://"@);
    assert(v.skip("wss://"@.len() as int) =~= h);
    if forall|i: int| 0 <= i < h.len() ==> #[trigger] h[i] != '#' && !is_white_space(h[i]) {
        if h.contains('#') {
            let i = choose|i: int| 0 <= i < h.len() && h[i] == '#';
            assert(h[i] != '#');
        }
    }
    if valid_endpoint(v) {
        assert forall|i: int| 0 <= i < h.len() implies #[trigger] h[i] != '#' && !is_white_space(h[i]) by {
            if h[i] == '#' {
                assert(h.contains('#'));
            }
        }
    }
}

/// Validation refuses a text that does not start with `wss://` as not secure,
/// and refuses a `wss://` text only for its host part.
pub proof fn law_endpoint_refusal(v: Seq<char>)
    ensures
        !has_prefix(v, "wss://"@) ==> !valid_endpoint(v),
        has_prefix(v, "wss://"@) ==> v == "wss://"@ + v.skip("wss://"@.len() as int),
{
    if has_prefix(v, "wss://"@) {
        assert(v =~= "wss://"@ + v.skip("wss://"@.len() as int));
    }
}

impl Default for Config {
    /// The empty configuration of [`Config::new`].
    fn default() -> (r: Config)
        ensures
            r@.version == 0,
            r@.endpoint is None,
            r@.labels == Map::<Seq<char>, LabelView>::empty(),
    {
        Config::new()
    }
}

} // verus!
