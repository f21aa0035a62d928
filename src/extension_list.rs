use vstd::prelude::*;

use crate::base::{opt_string_view, same_name, to_owned_name, HasPos, Pos};

verus! {

/// One name's group: its key, its original (if seen) and its extensions in order.
pub type Group<O, E> = (Option<Seq<char>>, Option<O>, Seq<E>);

/// Groups original declarations and their extensions by name.
pub struct ExtensionList<O, E> {
    name_of_elem: String,
    items: Vec<ExtensionItem<O, E>>,
}

struct ExtensionItem<O, E> {
    name: Option<String>,
    original: Option<O>,
    extensions: Vec<E>,
}

/// Why the groups of a category could not be resolved.
pub enum ExtensionError {
    /// Two originals share a name.
    DuplicateOriginal { name_of_elem: String, name: Option<String>, first: Pos, second: Pos },
    /// A name is extended but never declared.
    NoOriginal { name_of_elem: String, name: Option<String>, first_extension: Pos },
}

/// The mathematical value of an `ExtensionError`.
pub enum ExtensionErrorView {
    DuplicateOriginal { name_of_elem: Seq<char>, name: Option<Seq<char>>, first: Pos, second: Pos },
    NoOriginal { name_of_elem: Seq<char>, name: Option<Seq<char>>, first_extension: Pos },
}

impl View for ExtensionError {
    type V = ExtensionErrorView;

    open spec fn view(&self) -> ExtensionErrorView {
        match self {
            ExtensionError::DuplicateOriginal { name_of_elem, name, first, second } =>
                ExtensionErrorView::DuplicateOriginal {
                name_of_elem: name_of_elem@,
                name: opt_string_view(*name),
                first: *first,
                second: *second,
            },
            ExtensionError::NoOriginal { name_of_elem, name, first_extension } =>
                ExtensionErrorView::NoOriginal {
                name_of_elem: name_of_elem@,
                name: opt_string_view(*name),
                first_extension: *first_extension,
            },
        }
    }
}

/// Keys are unique and every group holds an original or at least one extension.
/// An original is filed under its own name.
pub open spec fn groups_wf<O: HasPos, E>(g: Seq<Group<O, E>>) -> bool {
    &&& forall|i: int, j: int| 0 <= i < j < g.len() ==> g[i].0 != g[j].0
    &&& forall|i: int| 0 <= i < g.len() ==> (g[i].1 is Some || g[i].2.len() > 0)
    &&& forall|i: int|
        0 <= i < g.len() && (#[trigger] g[i]).1 is Some ==> g[i].1->0.name_view() == g[i].0
}

/// Whether some group has the key `k`.
pub open spec fn has_key<O, E>(g: Seq<Group<O, E>>, k: Option<Seq<char>>) -> bool {
    exists|i: int| 0 <= i < g.len() && g[i].0 == k
}

/// Index of the first group without an original, or the length if there is none.
pub open spec fn first_orphan<O, E>(g: Seq<Group<O, E>>) -> int
    decreases g.len(),
{
    if g.len() == 0 {
        0
    } else if g[0].1 is None {
        0
    } else {
        1 + first_orphan(g.drop_first())
    }
}

/// The group with key `k`.
pub open spec fn key_pos<O, E>(g: Seq<Group<O, E>>, k: Option<Seq<char>>) -> int {
    choose|i: int| 0 <= i < g.len() && g[i].0 == k
}

/// What recording an original does to the groups of a category named `elem`: its group,
/// new or made earlier by extensions, goes last.
pub open spec fn set_original_model<O: HasPos, E>(g: Seq<Group<O, E>>, o: O, elem: Seq<char>) -> Result<
    Seq<Group<O, E>>,
    ExtensionErrorView,
> {
    let k = o.name_view();
    if !has_key(g, k) {
        Ok(g.push((k, Some(o), Seq::empty())))
    } else {
        let i = key_pos(g, k);
        match g[i].1 {
            Some(first) => Err(
                ExtensionErrorView::DuplicateOriginal {
                    name_of_elem: elem,
                    name: k,
                    first: first.pos_view(),
                    second: o.pos_view(),
                },
            ),
            None => Ok(g.remove(i).push((k, Some(o), g[i].2))),
        }
    }
}

/// What recording an extension does to the groups of a category.
pub open spec fn add_extension_model<O, E: HasPos>(g: Seq<Group<O, E>>, e: E) -> Seq<Group<O, E>> {
    let k = e.name_view();
    if !has_key(g, k) {
        g.push((k, None, seq![e]))
    } else {
        let i = key_pos(g, k);
        g.update(i, (k, g[i].1, g[i].2.push(e)))
    }
}

/// The error for the first group without an original, in a category named `elem`.
pub open spec fn orphan_error<O, E: HasPos>(g: Seq<Group<O, E>>, elem: Seq<char>) -> ExtensionErrorView {
    let k = first_orphan(g);
    ExtensionErrorView::NoOriginal {
        name_of_elem: elem,
        name: g[k].0,
        first_extension: g[k].2[0].pos_view(),
    }
}

/// A second original of a name that already has one is refused, and the error names the
/// positions of both.
pub proof fn lemma_duplicate_detection<O: HasPos, E: HasPos>(
    g: Seq<Group<O, E>>,
    o1: O,
    o2: O,
    elem: Seq<char>,
)
    requires
        groups_wf(g),
        !has_key(g, o1.name_view()),
        o2.name_view() == o1.name_view(),
    ensures
        set_original_model(g, o1, elem) is Ok,
        set_original_model(set_original_model(g, o1, elem)->Ok_0, o2, elem) == Err::<
            Seq<Group<O, E>>,
            ExtensionErrorView,
        >(
            ExtensionErrorView::DuplicateOriginal {
                name_of_elem: elem,
                name: o1.name_view(),
                first: o1.pos_view(),
                second: o2.pos_view(),
            },
        ),
{
    let k = o1.name_view();
    let h = g.push((k, Some(o1), Seq::<E>::empty()));
    assert(h[g.len() as int].0 == k);
    let i = key_pos(h, k);
    assert(i == g.len()) by {
        if i < g.len() {
            assert(h[i] == g[i]);
        }
    }
}

/// The first group without an original is found at or before the end, after groups that
/// all have one.
pub proof fn lemma_first_orphan<O, E>(g: Seq<Group<O, E>>)
    ensures
        0 <= first_orphan(g) <= g.len(),
        forall|i: int| 0 <= i < first_orphan(g) ==> (#[trigger] g[i]).1 is Some,
    decreases g.len(),
{
    if g.len() > 0 && g[0].1 is Some {
        lemma_first_orphan(g.drop_first());
        assert forall|i: int| 0 <= i < first_orphan(g) implies (#[trigger] g[i]).1 is Some by {
            if i > 0 {
                assert(g[i] == g.drop_first()[i - 1]);
            }
        }
    }
}

proof fn lemma_first_orphan_at<O, E>(g: Seq<Group<O, E>>, j: int)
    requires
        0 <= j < g.len(),
        g[j].1 is None,
        forall|i: int| 0 <= i < j ==> (#[trigger] g[i]).1 is Some,
    ensures
        first_orphan(g) == j,
    decreases j,
{
    if j > 0 {
        lemma_first_orphan_at(g.drop_first(), j - 1);
    }
}

/// One call on an extension list: an original or an extension.
pub enum Event<O, E> {
    Original(O),
    Extension(E),
}

/// Records one event.
pub open spec fn record<O: HasPos, E: HasPos>(g: Seq<Group<O, E>>, ev: Event<O, E>, elem: Seq<char>) -> Result<
    Seq<Group<O, E>>,
    ExtensionErrorView,
> {
    match ev {
        Event::Original(o) => set_original_model(g, o, elem),
        Event::Extension(e) => Ok(add_extension_model(g, e)),
    }
}

/// Records the events in order on an empty list, stopping at the first refusal.
pub open spec fn record_all<O: HasPos, E: HasPos>(evs: Seq<Event<O, E>>, elem: Seq<char>) -> Result<
    Seq<Group<O, E>>,
    ExtensionErrorView,
>
    decreases evs.len(),
{
    if evs.len() == 0 {
        Ok(Seq::empty())
    } else {
        match record_all(evs.drop_last(), elem) {
            Ok(g) => record(g, evs.last(), elem),
            Err(e) => Err(e),
        }
    }
}

/// The originals named `n` among the events, in order.
pub open spec fn originals_named<O: HasPos, E>(evs: Seq<Event<O, E>>, n: Option<Seq<char>>) -> Seq<O>
    decreases evs.len(),
{
    if evs.len() == 0 {
        Seq::empty()
    } else {
        originals_named(evs.drop_last(), n) + match evs.last() {
            Event::Original(o) => if o.name_view() == n {
                seq![o]
            } else {
                Seq::empty()
            },
            Event::Extension(_) => Seq::empty(),
        }
    }
}

/// The extensions named `n` among the events, in order.
pub open spec fn extensions_named<O, E: HasPos>(evs: Seq<Event<O, E>>, n: Option<Seq<char>>) -> Seq<E>
    decreases evs.len(),
{
    if evs.len() == 0 {
        Seq::empty()
    } else {
        extensions_named(evs.drop_last(), n) + match evs.last() {
            Event::Extension(e) => if e.name_view() == n {
                seq![e]
            } else {
                Seq::empty()
            },
            Event::Original(_) => Seq::empty(),
        }
    }
}

/// The group with key `n`, if any.
pub open spec fn group_of<O, E>(g: Seq<Group<O, E>>, n: Option<Seq<char>>) -> Option<Group<O, E>> {
    if has_key(g, n) {
        Some(g[key_pos(g, n)])
    } else {
        None
    }
}

proof fn lemma_group_unique<O: HasPos, E>(g: Seq<Group<O, E>>, n: Option<Seq<char>>, j: int)
    requires
        groups_wf(g),
        0 <= j < g.len(),
        g[j].0 == n,
    ensures
        group_of(g, n) == Some(g[j]),
        key_pos(g, n) == j,
{
}

proof fn lemma_set_original_step<O: HasPos, E: HasPos>(
    g: Seq<Group<O, E>>,
    o: O,
    elem: Seq<char>,
    n: Option<Seq<char>>,
)
    requires
        groups_wf(g),
        set_original_model(g, o, elem) is Ok,
    ensures
        groups_wf(set_original_model(g, o, elem)->Ok_0),
        group_of(g, o.name_view()) is Some ==> group_of(g, o.name_view())->Some_0.1 is None,
        n == o.name_view() ==> group_of(set_original_model(g, o, elem)->Ok_0, n) == Some(
            (
                n,
                Some(o),
                match group_of(g, n) {
                    Some(x) => x.2,
                    None => Seq::<E>::empty(),
                },
            ),
        ),
        n != o.name_view() ==> group_of(set_original_model(g, o, elem)->Ok_0, n) == group_of(
            g,
            n,
        ),
        key_pos(set_original_model(g, o, elem)->Ok_0, o.name_view()) == set_original_model(
            g,
            o,
            elem,
        )->Ok_0.len() - 1,
        n != o.name_view() && has_key(g, n) ==> key_pos(set_original_model(g, o, elem)->Ok_0, n)
            == if has_key(g, o.name_view()) && key_pos(g, n) > key_pos(g, o.name_view()) {
            key_pos(g, n) - 1
        } else {
            key_pos(g, n)
        },
{
    let k = o.name_view();
    let h = set_original_model(g, o, elem)->Ok_0;
    if has_key(g, k) {
        let i = key_pos(g, k);
        lemma_group_unique(g, k, i);
        assert(h == g.remove(i).push((k, Some(o), g[i].2)));
        assert forall|a: int, b: int| 0 <= a < b < h.len() implies h[a].0 != h[b].0 by {
            if b == h.len() - 1 {
                if a < i {
                    assert(h[a] == g[a]);
                } else {
                    assert(h[a] == g[a + 1]);
                }
            } else {
                if a < i {
                    assert(h[a] == g[a]);
                } else {
                    assert(h[a] == g[a + 1]);
                }
                if b < i {
                    assert(h[b] == g[b]);
                } else {
                    assert(h[b] == g[b + 1]);
                }
            }
        }
        assert forall|a: int| 0 <= a < h.len() implies (h[a].1 is Some || h[a].2.len() > 0) && ((
        #[trigger] h[a]).1 is Some ==> h[a].1->0.name_view() == h[a].0) by {
            if a < h.len() - 1 {
                if a < i {
                    assert(h[a] == g[a]);
                } else {
                    assert(h[a] == g[a + 1]);
                }
            }
        }
        lemma_group_unique(h, k, h.len() - 1);
        if n != k && has_key(g, n) {
            let j = key_pos(g, n);
            lemma_group_unique(g, n, j);
            if j < i {
                assert(h[j] == g[j]);
                lemma_group_unique(h, n, j);
            } else {
                assert(h[j - 1] == g[j]);
                lemma_group_unique(h, n, j - 1);
            }
        } else if n != k {
            assert forall|a: int| 0 <= a < h.len() implies h[a].0 != n by {
                if a < h.len() - 1 {
                    if a < i {
                        assert(h[a] == g[a]);
                    } else {
                        assert(h[a] == g[a + 1]);
                    }
                }
            }
        }
    } else {
        assert(h == g.push((k, Some(o), Seq::<E>::empty())));
        lemma_group_unique(h, k, h.len() - 1);
        if n != k && has_key(g, n) {
            let j = key_pos(g, n);
            lemma_group_unique(g, n, j);
            assert(h[j] == g[j]);
            lemma_group_unique(h, n, j);
        } else if n != k {
            assert forall|a: int| 0 <= a < h.len() implies h[a].0 != n by {
                if a < h.len() - 1 {
                    assert(h[a] == g[a]);
                }
            }
        }
    }
}

proof fn lemma_add_extension_step<O: HasPos, E: HasPos>(
    g: Seq<Group<O, E>>,
    e: E,
    n: Option<Seq<char>>,
)
    requires
        groups_wf(g),
    ensures
        groups_wf(add_extension_model(g, e)),
        n == e.name_view() ==> group_of(add_extension_model(g, e), n) == Some(
            match group_of(g, n) {
                Some(x) => (n, x.1, x.2.push(e)),
                None => (n, None, seq![e]),
            },
        ),
        n != e.name_view() ==> group_of(add_extension_model(g, e), n) == group_of(g, n),
        has_key(g, n) ==> key_pos(add_extension_model(g, e), n) == key_pos(g, n),
{
    let k = e.name_view();
    let h = add_extension_model(g, e);
    if has_key(g, n) {
        lemma_group_unique(g, n, key_pos(g, n));
    }
    if has_key(g, k) {
        let i = key_pos(g, k);
        lemma_group_unique(g, k, i);
        assert(h == g.update(i, (k, g[i].1, g[i].2.push(e))));
        assert forall|a: int| 0 <= a < h.len() && a != i implies h[a] == g[a] by {}
        lemma_group_unique(h, k, i);
        if n != k && has_key(g, n) {
            let j = key_pos(g, n);
            lemma_group_unique(g, n, j);
            lemma_group_unique(h, n, j);
        }
    } else {
        assert(h == g.push((k, None::<O>, seq![e])));
        lemma_group_unique(h, k, h.len() - 1);
        if n != k && has_key(g, n) {
            let j = key_pos(g, n);
            lemma_group_unique(g, n, j);
            assert(h[j] == g[j]);
            lemma_group_unique(h, n, j);
        } else if n != k {
            assert forall|a: int| 0 <= a < h.len() implies h[a].0 != n by {
                if a < h.len() - 1 {
                    assert(h[a] == g[a]);
                }
            }
        }
    }
}

/// After any events, the group of a name holds that name's single original (if any) and
/// exactly its extensions in the order they came; a name never named has no group.
pub proof fn lemma_group_contents<O: HasPos, E: HasPos>(
    evs: Seq<Event<O, E>>,
    elem: Seq<char>,
    n: Option<Seq<char>>,
)
    requires
        record_all(evs, elem) is Ok,
    ensures
        groups_wf(record_all(evs, elem)->Ok_0),
        originals_named(evs, n).len() <= 1,
        group_of(record_all(evs, elem)->Ok_0, n) == if originals_named(evs, n).len() == 0
            && extensions_named(evs, n).len() == 0 {
            None
        } else {
            Some(
                (
                    n,
                    if originals_named(evs, n).len() == 0 {
                        None
                    } else {
                        Some(originals_named(evs, n)[0])
                    },
                    extensions_named(evs, n),
                ),
            )
        },
    decreases evs.len(),
{
    if evs.len() > 0 {
        let prev = evs.drop_last();
        lemma_group_contents(prev, elem, n);
        let g = record_all(prev, elem)->Ok_0;
        match evs.last() {
            Event::Original(o) => {
                lemma_set_original_step(g, o, elem, n);
                if o.name_view() == n {
                    lemma_set_original_step(g, o, elem, n);
                    assert(originals_named(prev, n).len() == 0);
                    assert(originals_named(evs, n) =~= seq![o]);
                }
                assert(extensions_named(evs, n) =~= extensions_named(prev, n));
            },
            Event::Extension(e) => {
                lemma_add_extension_step(g, e, n);
                if e.name_view() == n {
                    assert(extensions_named(evs, n) =~= extensions_named(prev, n).push(e));
                    assert(extensions_named(prev, n).len() == 0 ==> extensions_named(evs, n)
                        =~= seq![e]);
                } else {
                    assert(extensions_named(evs, n) =~= extensions_named(prev, n));
                }
                assert(originals_named(evs, n) =~= originals_named(prev, n));
            },
        }
    }
}

/// Whatever the other calls and however they interleave, a name with exactly one original
/// ends as exactly one group: that original with all of the name's extensions, in the order
/// they came.
pub proof fn lemma_merge_plan<O: HasPos, E: HasPos>(
    evs: Seq<Event<O, E>>,
    elem: Seq<char>,
    n: Option<Seq<char>>,
)
    requires
        record_all(evs, elem) is Ok,
        originals_named(evs, n).len() == 1,
    ensures
        ({
            let g = record_all(evs, elem)->Ok_0;
            exists|i: int|
                0 <= i < g.len() && g[i] == (n, Some(originals_named(evs, n)[0]), extensions_named(
                    evs,
                    n,
                )) && forall|j: int| 0 <= j < g.len() && (#[trigger] g[j]).0 == n ==> j == i
        }),
{
    lemma_group_contents(evs, elem, n);
    let g = record_all(evs, elem)->Ok_0;
    let i = key_pos(g, n);
    assert(g[i] == (n, Some(originals_named(evs, n)[0]), extensions_named(evs, n)));
}

/// Whatever else happens, two originals of one name are never both accepted.
pub proof fn lemma_duplicate_refused<O: HasPos, E: HasPos>(
    evs: Seq<Event<O, E>>,
    elem: Seq<char>,
    n: Option<Seq<char>>,
)
    requires
        originals_named(evs, n).len() >= 2,
    ensures
        record_all(evs, elem) is Err,
{
    if record_all(evs, elem) is Ok {
        lemma_group_contents(evs, elem, n);
    }
}

/// Whatever the other calls and however they interleave, a name with extensions and no
/// original leaves a group without an original; when it is the only such name, it is the one
/// reported, at the position of its first extension.
pub proof fn lemma_orphan_reported<O: HasPos, E: HasPos>(
    evs: Seq<Event<O, E>>,
    elem: Seq<char>,
    n: Option<Seq<char>>,
)
    requires
        record_all(evs, elem) is Ok,
        originals_named(evs, n).len() == 0,
        extensions_named(evs, n).len() > 0,
    ensures
        ({
            let g = record_all(evs, elem)->Ok_0;
            &&& first_orphan(g) < g.len()
            &&& (forall|j: int| 0 <= j < g.len() && (#[trigger] g[j]).0 != n ==> g[j].1 is Some)
                ==> orphan_error(g, elem) == (ExtensionErrorView::NoOriginal {
                name_of_elem: elem,
                name: n,
                first_extension: extensions_named(evs, n)[0].pos_view(),
            })
        }),
{
    lemma_group_contents(evs, elem, n);
    let g = record_all(evs, elem)->Ok_0;
    let i = key_pos(g, n);
    assert(g[i].1 is None);
    lemma_first_orphan(g);
    if forall|j: int| 0 <= j < g.len() && (#[trigger] g[j]).0 != n ==> g[j].1 is Some {
        lemma_first_orphan_at(g, i);
    }
}

proof fn lemma_originals_counted<O: HasPos, E>(evs: Seq<Event<O, E>>, p: int, q: int)
    requires
        0 <= p < evs.len(),
        evs[p] is Original,
        p <= q < evs.len(),
        evs[q] is Original,
    ensures
        originals_named(evs, evs[p]->Original_0.name_view()).len() >= 1,
        p < q && evs[q]->Original_0.name_view() == evs[p]->Original_0.name_view() ==> originals_named(
            evs,
            evs[p]->Original_0.name_view(),
        ).len() >= 2,
    decreases evs.len(),
{
    let a = evs[p]->Original_0.name_view();
    let prev = evs.drop_last();
    if q < evs.len() - 1 {
        lemma_originals_counted(prev, p, q);
        assert(prev[p] == evs[p] && prev[q] == evs[q]);
    } else if p < q {
        lemma_originals_counted(prev, p, p);
        assert(prev[p] == evs[p]);
    }
}

/// Groups with an original stand in the order in which their originals came, whatever
/// extensions came before them and however the calls interleave.
pub proof fn lemma_original_order<O: HasPos, E: HasPos>(
    evs: Seq<Event<O, E>>,
    elem: Seq<char>,
    p: int,
    q: int,
)
    requires
        record_all(evs, elem) is Ok,
        0 <= p < q < evs.len(),
        evs[p] is Original,
        evs[q] is Original,
    ensures
        ({
            let g = record_all(evs, elem)->Ok_0;
            let a = evs[p]->Original_0.name_view();
            let b = evs[q]->Original_0.name_view();
            &&& has_key(g, a)
            &&& has_key(g, b)
            &&& key_pos(g, a) < key_pos(g, b)
        }),
    decreases evs.len(),
{
    let a = evs[p]->Original_0.name_view();
    let b = evs[q]->Original_0.name_view();
    let prev = evs.drop_last();
    let g0 = record_all(prev, elem)->Ok_0;
    let g = record_all(evs, elem)->Ok_0;
    lemma_originals_counted(evs, p, q);
    lemma_group_contents(evs, elem, a);
    lemma_group_contents(evs, elem, b);
    lemma_group_contents(prev, elem, a);
    assert(prev[p] == evs[p]);
    lemma_originals_counted(prev, p, p);
    if q == evs.len() - 1 {
        let o = evs.last()->Original_0;
        lemma_set_original_step(g0, o, elem, a);
        let i = key_pos(g, a);
        assert(g[i].0 == a);
    } else {
        assert(prev[q] == evs[q]);
        lemma_original_order(prev, elem, p, q);
        lemma_originals_counted(prev, q, q);
        lemma_group_contents(prev, elem, b);
        match evs.last() {
            Event::Original(o) => {
                let k = o.name_view();
                lemma_set_original_step(g0, o, elem, a);
                lemma_set_original_step(g0, o, elem, b);
                if k == a {
                    assert(originals_named(evs, a) =~= originals_named(prev, a).push(o));
                }
                if k == b {
                    assert(originals_named(evs, b) =~= originals_named(prev, b).push(o));
                }
            },
            Event::Extension(e) => {
                lemma_add_extension_step(g0, e, a);
                lemma_add_extension_step(g0, e, b);
            },
        }
    }
}

impl<O, E> ExtensionItem<O, E> {
    spec fn view(&self) -> Group<O, E> {
        (opt_string_view(self.name), self.original, self.extensions@)
    }
}

impl<O: HasPos, E: HasPos> View for ExtensionList<O, E> {
    type V = Seq<Group<O, E>>;

    closed spec fn view(&self) -> Seq<Group<O, E>> {
        self.items@.map_values(|it: ExtensionItem<O, E>| it.view())
    }
}

impl<O: HasPos, E: HasPos> ExtensionList<O, E> {
    /// The name of the category of elements, used in errors.
    pub closed spec fn elem_name(&self) -> Seq<char> {
        self.name_of_elem@
    }

    pub open spec fn wf(&self) -> bool {
        groups_wf(self@)
    }

    pub fn new(name_of_elem: &str) -> (r: Self)
        ensures
            r@ == Seq::<Group<O, E>>::empty(),
            r.elem_name() == name_of_elem@,
            r.wf(),
    {
        let r = ExtensionList { name_of_elem: name_of_elem.to_owned(), items: Vec::new() };
        assert(r@ =~= Seq::<Group<O, E>>::empty());
        r
    }

    /// Index of the item with the given key, if any.
    fn find(&self, key: &Option<String>) -> (r: Option<usize>)
        ensures
            match r {
                Some(i) => i < self@.len() && self@[i as int].0 == opt_string_view(*key),
                None => !has_key(self@, opt_string_view(*key)),
            },
    {
        let mut i: usize = 0;
        while i < self.items.len()
            invariant
                i <= self.items@.len(),
                self@.len() == self.items@.len(),
                forall|t: int| 0 <= t < i ==> self@[t].0 != opt_string_view(*key),
            decreases self.items@.len() - i,
        {
            if same_name(&self.items[i].name, key) {
                return Some(i);
            }
            i = i + 1;
        }
        None
    }

    /// Records the original declaration of its name; a second original of one name is refused.
    /// The name's group goes last, so that groups with an original stand in the order in
    /// which their originals came, whatever extensions came earlier.
    pub fn set_original(&mut self, original: O) -> (r: Result<(), ExtensionError>)
        requires
            old(self).wf(),
        ensures
            final(self).wf(),
            final(self).elem_name() == old(self).elem_name(),
            match set_original_model(old(self)@, original, old(self).elem_name()) {
                Ok(g) => r is Ok && final(self)@ == g,
                Err(e) => r is Err && r->Err_0@ == e && final(self)@ == old(self)@,
            },
    {
        let name = to_owned_name(original.name());
        match self.find(&name) {
            None => {
                let item = ExtensionItem { name, original: Some(original), extensions: Vec::new() };
                self.items.push(item);
                assert(self@ =~= old(self)@.push((original.name_view(), Some(original), Seq::empty())));
                Ok(())
            },
            Some(i) => {
                match &self.items[i].original {
                    Some(first) => {
                        return Err(
                            ExtensionError::DuplicateOriginal {
                                name_of_elem: self.name_of_elem.clone(),
                                name,
                                first: first.position(),
                                second: original.position(),
                            },
                        );
                    },
                    None => {},
                }
                let old_item = self.items.remove(i);
                let item = ExtensionItem {
                    name: old_item.name,
                    original: Some(original),
                    extensions: old_item.extensions,
                };
                self.items.push(item);
                assert(self@ =~= old(self)@.remove(i as int).push(
                    (original.name_view(), Some(original), old(self)@[i as int].2),
                ));
                Ok(())
            },
        }
    }

    /// Appends an extension to the group of its name.
    pub fn add_extension(&mut self, extension: E)
        requires
            old(self).wf(),
        ensures
            final(self).wf(),
            final(self).elem_name() == old(self).elem_name(),
            final(self)@ == add_extension_model(old(self)@, extension),
    {
        let name = to_owned_name(extension.name());
        match self.find(&name) {
            None => {
                let mut extensions = Vec::new();
                extensions.push(extension);
                let item = ExtensionItem { name, original: None, extensions };
                self.items.push(item);
                assert(self@ =~= old(self)@.push((extension.name_view(), None, seq![extension])));
            },
            Some(i) => {
                let old_item = self.items.remove(i);
                let mut extensions = old_item.extensions;
                extensions.push(extension);
                let item = ExtensionItem { name: old_item.name, original: old_item.original, extensions };
                self.items.insert(i, item);
                assert(self@ =~= old(self)@.update(
                    i as int,
                    (old(self)@[i as int].0, old(self)@[i as int].1, old(self)@[i as int].2.push(extension)),
                ));
            },
        }
    }

    /// Pairs each original with its extensions, in the order in which the originals came;
    /// fails on the first name that is extended but never declared.
    pub fn into_original_and_extensions(self) -> (r: Result<Vec<(O, Vec<E>)>, ExtensionError>)
        requires
            self.wf(),
        ensures
            first_orphan(self@) == self@.len() <==> r is Ok,
            r is Ok ==> {
                let v = r->Ok_0@;
                &&& v.len() == self@.len()
                &&& forall|i: int|
                    0 <= i < v.len() ==> Some(#[trigger] v[i].0) == self@[i].1 && v[i].1@
                        == self@[i].2
            },
            r is Err ==> r->Err_0@ == orphan_error(self@, self.elem_name()),
    {
        let ghost g = self@;
        let name_of_elem = self.name_of_elem;
        let mut items = self.items;
        assert(g.skip(0) =~= g);
        let n = items.len();
        assert(g.len() == n);
        let mut out: Vec<(O, Vec<E>)> = Vec::new();
        let mut i: usize = 0;
        while items.len() > 0
            invariant
                g.len() == i + items@.len(),
                g.len() <= usize::MAX,
                g == self@,
                name_of_elem@ == self.elem_name(),
                groups_wf(g),
                items@.map_values(|it: ExtensionItem<O, E>| it.view()) == g.skip(i as int),
                first_orphan(g) == i + first_orphan(g.skip(i as int)),
                out@.len() == i,
                forall|t: int|
                    0 <= t < i ==> Some(#[trigger] out@[t].0) == g[t].1 && out@[t].1@ == g[t].2,
            decreases items@.len(),
        {
            let it = items.remove(0);
            assert(g.skip(i as int)[0] == it.view());
            assert(g[i as int] == it.view());
            assert(g.skip(i as int).drop_first() =~= g.skip(i + 1));
            assert(items@.map_values(|it: ExtensionItem<O, E>| it.view()) =~= g.skip(i + 1));
            match it.original {
                None => {
                    assert(g[i as int].2.len() > 0);
                    assert(first_orphan(g.skip(i as int)) == 0);
                    assert(first_orphan(g) == i);
                    assert(i < g.len());
                    assert(g[i as int].0 == opt_string_view(it.name));
                    assert(g[i as int].2 == it.extensions@);
                    return Err(
                        ExtensionError::NoOriginal {
                            name_of_elem,
                            name: it.name,
                            first_extension: it.extensions[0].position(),
                        },
                    );
                },
                Some(o) => {
                    assert(first_orphan(g.skip(i as int)) == 1 + first_orphan(g.skip(i + 1)));
                    out.push((o, it.extensions));
                    i = i + 1;
                },
            }
        }
        assert(g.skip(i as int) =~= Seq::<Group<O, E>>::empty());
        Ok(out)
    }
}

} // verus!
