//! The footnote usage table of a render pass, and the reference list that it
//! selects and orders.

use crate::citation::{raw_references, Citation, Reference};
use crate::sorting::{
    items_of, lemma_ordered_lists_equal, lemma_stable_sorted_all,
    lemma_stable_sorted_keeps_order, lemma_stable_sorted_ordered, lemma_stable_sorted_relabel,
    lemma_with_key_at_most_one, lemma_with_key_from, lemma_with_key_len, lemma_with_key_one,
    lemma_with_key_two, relabel, stable_sort, stable_sorted, strip_keys, with_key, Keyed,
    SortKey,
};
use pulldown_cmark::{Event, Options, Parser};
use vstd::prelude::*;

verus! {

/// One event of a markdown text, as far as footnote bookkeeping looks at it.
#[derive(Debug)]
pub enum MdEvent {
    /// A reference to the footnote with the given key.
    FootnoteReference(String),
    /// Any other event.
    Other,
}

/// The mathematical content of an [`MdEvent`].
pub enum MdEventView {
    FootnoteReference(Seq<char>),
    Other,
}

impl View for MdEvent {
    type V = MdEventView;

    open spec fn view(&self) -> MdEventView {
        match self {
            MdEvent::FootnoteReference(key) => MdEventView::FootnoteReference(key@),
            MdEvent::Other => MdEventView::Other,
        }
    }
}

impl DeepView for MdEvent {
    type V = MdEventView;

    open spec fn deep_view(&self) -> MdEventView {
        self@
    }
}

/// The events that the markdown parser makes of a text, with footnotes
/// enabled.
pub uninterp spec fn markdown_events(text: Seq<char>) -> Seq<MdEventView>;

/// Runs `pulldown_cmark::Parser::new_ext` over a text with
/// `Options::ENABLE_FOOTNOTES` and keeps of each event whether it is a
/// footnote reference, and its key. The contract claims only that the events
/// are a function of the text.
#[verifier::external_body]
fn parse_markdown(text: &str) -> (events: Vec<MdEvent>)
    ensures
        events.deep_view() == markdown_events(text@),
{
    Parser::new_ext(text, Options::ENABLE_FOOTNOTES).map(
        |event| match event {
            Event::FootnoteReference(key) => MdEvent::FootnoteReference(key.to_string()),
            _ => MdEvent::Other,
        },
    ).collect()
}

/// The ordinal of a key: the place of its first occurrence in `keys`, or the
/// length of `keys` for a key that does not occur.
pub open spec fn ordinal_of(keys: Seq<Seq<char>>, key: Seq<char>) -> int
    decreases keys.len(),
{
    if keys.len() == 0 || keys[0] == key {
        0
    } else {
        1 + ordinal_of(keys.drop_first(), key)
    }
}

/// Whether the key has been cited.
pub open spec fn is_cited(keys: Seq<Seq<char>>, key: Seq<char>) -> bool {
    ordinal_of(keys, key) < keys.len()
}

/// No key occurs twice.
pub open spec fn distinct_keys(keys: Seq<Seq<char>>) -> bool {
    forall|i: int, j: int| 0 <= i < j < keys.len() ==> #[trigger] keys[i] != #[trigger] keys[j]
}

/// The table after a key is cited: a key that was not cited before gets the
/// next ordinal, a key that was keeps its own.
pub open spec fn cited(keys: Seq<Seq<char>>, key: Seq<char>) -> Seq<Seq<char>> {
    if is_cited(keys, key) {
        keys
    } else {
        keys.push(key)
    }
}

/// The table after the footnote references among the events are cited, in
/// order.
pub open spec fn cited_all(keys: Seq<Seq<char>>, events: Seq<MdEventView>) -> Seq<Seq<char>>
    decreases events.len(),
{
    if events.len() == 0 {
        keys
    } else {
        let before = cited_all(keys, events.drop_last());
        match events.last() {
            MdEventView::FootnoteReference(key) => cited(before, key),
            MdEventView::Other => before,
        }
    }
}

/// What [`ordinal_of`] finds: the first occurrence of the key, if any.
pub proof fn lemma_ordinal_of(keys: Seq<Seq<char>>, key: Seq<char>)
    ensures
        0 <= ordinal_of(keys, key) <= keys.len(),
        is_cited(keys, key) ==> keys[ordinal_of(keys, key)] == key,
        forall|j: int| 0 <= j < ordinal_of(keys, key) ==> #[trigger] keys[j] != key,
    decreases keys.len(),
{
    if keys.len() == 0 || keys[0] == key {
    } else {
        let rest = keys.drop_first();
        lemma_ordinal_of(rest, key);
        let i = ordinal_of(rest, key);
        assert forall|j: int| 0 <= j < i + 1 implies #[trigger] keys[j] != key by {
            if j > 0 {
                assert(keys[j] == rest[j - 1]);
            }
        }
        if i + 1 < keys.len() {
            assert(keys[i + 1] == rest[i]);
        }
    }
}

/// A place with the properties of [`lemma_ordinal_of`] is the ordinal.
pub proof fn lemma_ordinal_is(keys: Seq<Seq<char>>, key: Seq<char>, i: int)
    requires
        0 <= i <= keys.len(),
        i < keys.len() ==> keys[i] == key,
        forall|j: int| 0 <= j < i ==> #[trigger] keys[j] != key,
    ensures
        ordinal_of(keys, key) == i,
    decreases keys.len(),
{
    if i > 0 {
        let rest = keys.drop_first();
        assert(keys[0] != key);
        assert forall|j: int| 0 <= j < i - 1 implies #[trigger] rest[j] != key by {
            assert(rest[j] == keys[j + 1]);
        }
        if i < keys.len() {
            assert(rest[i - 1] == keys[i]);
        }
        lemma_ordinal_is(rest, key, i - 1);
    }
}

/// Citing a key keeps the ordinal of every key that was cited before, gives
/// a new key the next ordinal, and changes nothing where the key was cited
/// before: a key cited twice stands in the table once, at its first
/// occurrence.
pub proof fn lemma_cited(keys: Seq<Seq<char>>, key: Seq<char>, other: Seq<char>)
    requires
        distinct_keys(keys),
    ensures
        distinct_keys(cited(keys, key)),
        is_cited(cited(keys, key), key),
        cited(cited(keys, key), key) == cited(keys, key),
        !is_cited(keys, key) ==> ordinal_of(cited(keys, key), key) == keys.len(),
        is_cited(keys, other) ==> ordinal_of(cited(keys, key), other) == ordinal_of(keys, other),
        is_cited(cited(keys, key), other) <==> is_cited(keys, other) || other == key,
{
    lemma_ordinal_of(keys, key);
    lemma_ordinal_of(keys, other);
    let after = cited(keys, key);
    if !is_cited(keys, key) {
        lemma_ordinal_is(after, key, keys.len() as int);
        if is_cited(keys, other) {
            lemma_ordinal_is(after, other, ordinal_of(keys, other));
        } else if other != key {
            lemma_ordinal_is(after, other, after.len() as int);
        }
    }
}

/// Which reference keys the body has cited in one render pass, each with the
/// ordinal of its first citation, counted from zero.
pub struct FootnoteUsageTable {
    keys: Vec<String>,
}

impl View for FootnoteUsageTable {
    type V = Seq<Seq<char>>;

    /// The cited keys in the order of their ordinals.
    closed spec fn view(&self) -> Seq<Seq<char>> {
        self.keys.deep_view()
    }
}

impl FootnoteUsageTable {
    /// No key stands in the table twice.
    pub open spec fn well_formed(&self) -> bool {
        distinct_keys(self@)
    }

    /// The empty table of a new render pass.
    pub fn new() -> (table: Self)
        ensures
            table@ == Seq::<Seq<char>>::empty(),
            table.well_formed(),
    {
        let table = FootnoteUsageTable { keys: Vec::new() };
        assert(table@ =~= Seq::<Seq<char>>::empty());
        table
    }

    /// The number of keys cited so far.
    pub fn len(&self) -> (n: usize)
        ensures
            n == self@.len(),
    {
        self.keys.len()
    }

    /// The ordinal of a key, if it has been cited.
    pub fn ordinal(&self, key: &str) -> (ordinal: Option<usize>)
        ensures
            match ordinal {
                Some(n) => is_cited(self@, key@) && n == ordinal_of(self@, key@),
                None => !is_cited(self@, key@),
            },
    {
        let wanted = key.to_owned();
        let mut i: usize = 0;
        while i < self.keys.len()
            invariant
                i <= self.keys.len(),
                wanted@ == key@,
                forall|j: int| 0 <= j < i ==> #[trigger] self@[j] != key@,
            decreases self.keys.len() - i,
        {
            if self.keys[i] == wanted {
                proof {
                    lemma_ordinal_is(self@, key@, i as int);
                }
                return Some(i);
            }
            i += 1;
        }
        proof {
            lemma_ordinal_is(self@, key@, i as int);
        }
        None
    }

    /// Notes that the body cites a key, and returns the key's ordinal. A key
    /// that is cited for the first time gets the next ordinal; a key that was
    /// cited before keeps its own.
    pub fn record(&mut self, key: &str) -> (ordinal: usize)
        requires
            old(self).well_formed(),
        ensures
            final(self)@ == cited(old(self)@, key@),
            final(self).well_formed(),
            ordinal == ordinal_of(final(self)@, key@),
            ordinal < final(self)@.len(),
    {
        proof {
            lemma_cited(self@, key@, key@);
        }
        match self.ordinal(key) {
            Some(n) => n,
            None => {
                let n = self.keys.len();
                self.keys.push(key.to_owned());
                assert(self@ =~= cited(old(self)@, key@));
                n
            },
        }
    }

    /// Notes every footnote reference among the events, in order.
    pub fn record_events(&mut self, events: &Vec<MdEvent>)
        requires
            old(self).well_formed(),
        ensures
            final(self)@ == cited_all(old(self)@, events.deep_view()),
            final(self).well_formed(),
    {
        let ghost all = events.deep_view();
        let mut i: usize = 0;
        assert(all.subrange(0, 0) =~= Seq::<MdEventView>::empty());
        while i < events.len()
            invariant
                i <= events.len(),
                all == events.deep_view(),
                self.well_formed(),
                self@ == cited_all(old(self)@, all.subrange(0, i as int)),
            decreases events.len() - i,
        {
            let ghost next = all.subrange(0, i + 1);
            proof {
                assert(next.drop_last() =~= all.subrange(0, i as int));
                assert(next.last() == events[i as int]@);
            }
            match &events[i] {
                MdEvent::FootnoteReference(key) => {
                    self.record(key.as_str());
                },
                MdEvent::Other => {},
            }
            i += 1;
        }
        assert(all.subrange(0, all.len() as int) =~= all);
    }

    /// Notes every footnote reference of a markdown text, in order.
    pub fn record_markdown(&mut self, text: &str)
        requires
            old(self).well_formed(),
        ensures
            final(self)@ == cited_all(old(self)@, markdown_events(text@)),
            final(self).well_formed(),
    {
        let events = parse_markdown(text);
        self.record_events(&events);
    }
}

/// A reference as it is listed: its key and its display text.
pub type Listed = (String, String);

/// The view of a listed reference.
pub open spec fn listed_view_fn() -> spec_fn(Listed) -> (Seq<char>, Seq<char>) {
    |e: Listed| (e.0@, e.1@)
}

/// The views of listed references, in order.
pub open spec fn listed_views(list: Seq<Listed>) -> Seq<(Seq<char>, Seq<char>)> {
    list.map_values(listed_view_fn())
}

/// The references whose key has been cited, in order.
pub open spec fn cited_only(references: Seq<(Seq<char>, Seq<char>)>, keys: Seq<Seq<char>>) -> Seq<
    (Seq<char>, Seq<char>),
>
    decreases references.len(),
{
    if references.len() == 0 {
        Seq::empty()
    } else if is_cited(keys, references.last().0) {
        cited_only(references.drop_last(), keys).push(references.last())
    } else {
        cited_only(references.drop_last(), keys)
    }
}

/// The key by which a reference is listed: the ordinal of its citation key.
pub open spec fn ordinal_key(keys: Seq<Seq<char>>, reference: (Seq<char>, Seq<char>)) -> SortKey {
    SortKey { major: ordinal_of(keys, reference.0) as i128, minor: 0 }
}

/// Each reference with the ordinal of its key.
pub open spec fn keyed_references(
    references: Seq<(Seq<char>, Seq<char>)>,
    keys: Seq<Seq<char>>,
) -> Seq<Keyed<(Seq<char>, Seq<char>)>> {
    references.map_values(
        |r: (Seq<char>, Seq<char>)| Keyed { key: ordinal_key(keys, r), item: r },
    )
}

/// The reference list of the final pass: the references that the body has
/// cited, in the order of their first citation.
pub open spec fn used_references(
    references: Seq<(Seq<char>, Seq<char>)>,
    keys: Seq<Seq<char>>,
) -> Seq<(Seq<char>, Seq<char>)> {
    items_of(stable_sorted(keyed_references(cited_only(references, keys), keys)))
}

/// The reference list of a pass: every reference that is display text in
/// the first pass, where no table exists yet; the cited ones in the order of
/// their first citation in the final pass.
pub open spec fn listed_references(references: Seq<Reference>, keys: Option<Seq<Seq<char>>>) -> Seq<
    (Seq<char>, Seq<char>),
> {
    match keys {
        None => raw_references(references),
        Some(k) => used_references(raw_references(references), k),
    }
}

/// Lists the references of a pass. Only references that are plain display
/// text are listed. With the table of the first pass, a reference is listed
/// only if the body cited its key, and the list is in the order of first
/// citation.
pub fn list_references(
    references: &Vec<Reference>,
    footnotes: Option<&FootnoteUsageTable>,
) -> (list: Vec<Listed>)
    ensures
        listed_views(list@) == listed_references(
            references@,
            match footnotes {
                Some(table) => Some(table@),
                None => None,
            },
        ),
{
    let ghost keys = match footnotes {
        Some(table) => table@,
        None => Seq::empty(),
    };
    let ghost raw = raw_references(references@);
    let mut entries: Vec<Keyed<Listed>> = Vec::new();
    let mut i: usize = 0;
    assert(references@.subrange(0, 0) =~= Seq::<Reference>::empty());
    while i < references.len()
        invariant
            i <= references.len(),
            footnotes is Some ==> keys == footnotes.unwrap()@,
            footnotes is Some ==> relabel(entries@, listed_view_fn()) == keyed_references(
                cited_only(raw_references(references@.subrange(0, i as int)), keys),
                keys,
            ),
            footnotes is None ==> listed_views(items_of(entries@)) == raw_references(
                references@.subrange(0, i as int),
            ),
        decreases references.len() - i,
    {
        let ghost done = references@.subrange(0, i as int);
        let ghost next = references@.subrange(0, i + 1);
        let ghost before = entries@;
        proof {
            assert(next.drop_last() =~= done);
            assert(next.last() == references[i as int]);
        }
        match &references[i].1 {
            Citation::Raw(text) => {
                let ghost item = (references[i as int].0@, text@);
                proof {
                    assert(raw_references(next) == raw_references(done).push(item));
                    assert(raw_references(next).drop_last() =~= raw_references(done));
                }
                match footnotes {
                    Some(table) => match table.ordinal(references[i].0.as_str()) {
                        Some(n) => {
                            entries.push(
                                Keyed {
                                    key: SortKey { major: n as i128, minor: 0 },
                                    item: (references[i].0.clone(), text.clone()),
                                },
                            );
                            assert(relabel(entries@, listed_view_fn()) =~= relabel(
                                before,
                                listed_view_fn(),
                            ).push(Keyed { key: ordinal_key(keys, item), item }));
                            assert(keyed_references(
                                cited_only(raw_references(done), keys).push(item),
                                keys,
                            ) =~= keyed_references(
                                cited_only(raw_references(done), keys),
                                keys,
                            ).push(Keyed { key: ordinal_key(keys, item), item }));
                        },
                        None => {},
                    },
                    None => {
                        entries.push(
                            Keyed {
                                key: SortKey { major: 0, minor: 0 },
                                item: (references[i].0.clone(), text.clone()),
                            },
                        );
                        assert(listed_views(items_of(entries@)) =~= listed_views(
                            items_of(before),
                        ).push(item));
                    },
                }
            },
            _ => {},
        }
        i += 1;
    }
    assert(references@.subrange(0, references.len() as int) =~= references@);
    let ghost unsorted = entries@;
    match footnotes {
        Some(_) => {
            let sorted = stable_sort(entries);
            let list = strip_keys(sorted);
            proof {
                lemma_stable_sorted_relabel(unsorted, listed_view_fn());
                assert(items_of(relabel(stable_sorted(unsorted), listed_view_fn()))
                    =~= listed_views(list@));
            }
            list
        },
        None => strip_keys(entries),
    }
}

/// No two references share a key.
pub open spec fn distinct_reference_keys(references: Seq<(Seq<char>, Seq<char>)>) -> bool {
    forall|i: int, j: int|
        0 <= i < j < references.len() ==> (#[trigger] references[i]).0
            != (#[trigger] references[j]).0
}

/// The cited references are cited, come from the list, and are as distinct
/// as the list is.
pub proof fn lemma_cited_only(references: Seq<(Seq<char>, Seq<char>)>, keys: Seq<Seq<char>>)
    ensures
        cited_only(references, keys).len() <= references.len(),
        forall|i: int|
            0 <= i < cited_only(references, keys).len() ==> is_cited(
                keys,
                (#[trigger] cited_only(references, keys)[i]).0,
            ) && references.contains(cited_only(references, keys)[i]),
        distinct_reference_keys(references) ==> distinct_reference_keys(
            cited_only(references, keys),
        ),
    decreases references.len(),
{
    if references.len() > 0 {
        let head = references.drop_last();
        let rest = cited_only(head, keys);
        lemma_cited_only(head, keys);
        let out = cited_only(references, keys);
        assert forall|i: int| 0 <= i < out.len() implies is_cited(keys, (#[trigger] out[i]).0)
            && references.contains(out[i]) by {
            if i < rest.len() {
                assert(out[i] == rest[i]);
                assert(head.contains(rest[i]));
                let j = choose|j: int| 0 <= j < head.len() && head[j] == rest[i];
                assert(references[j] == rest[i]);
            } else {
                assert(out[i] == references.last());
                assert(references[references.len() - 1] == out[i]);
            }
        }
        if distinct_reference_keys(references) {
            assert(distinct_reference_keys(head)) by {
                assert forall|i: int, j: int| 0 <= i < j < head.len() implies (#[trigger] head[i]).0
                    != (#[trigger] head[j]).0 by {
                    assert(head[i] == references[i] && head[j] == references[j]);
                }
            }
            assert forall|i: int, j: int| 0 <= i < j < out.len() implies (#[trigger] out[i]).0 != (
            #[trigger] out[j]).0 by {
                assert(out[i] == rest[i]);
                if j < rest.len() {
                    assert(out[j] == rest[j]);
                } else {
                    assert(head.contains(rest[i]));
                    let m = choose|m: int| 0 <= m < head.len() && head[m] == rest[i];
                    assert(references[m] == rest[i]);
                    assert(references[references.len() - 1] == out[j]);
                }
            }
        }
    }
}

/// Whether an entry carries the ordinal of its reference, and the reference
/// is cited and listed among `references`.
pub open spec fn carries_ordinal(
    references: Seq<(Seq<char>, Seq<char>)>,
    keys: Seq<Seq<char>>,
) -> spec_fn(Keyed<(Seq<char>, Seq<char>)>) -> bool {
    |e: Keyed<(Seq<char>, Seq<char>)>|
        e.key == ordinal_key(keys, e.item) && is_cited(keys, e.item.0) && references.contains(
            e.item,
        )
}

/// The final reference list holds cited references only, so a reference
/// whose key the body never cited is absent; every listed reference is one
/// of the given references; and the list is in the order of first citation.
/// Where no two of the given references share a key, the ordinals of the
/// list rise strictly: a key that the body cited more than once is listed
/// once, at the place of its first citation.
pub proof fn lemma_used_references(references: Seq<(Seq<char>, Seq<char>)>, keys: Seq<Seq<char>>)
    requires
        keys.len() <= usize::MAX,
    ensures
        used_references(references, keys).len() <= references.len(),
        forall|i: int|
            0 <= i < used_references(references, keys).len() ==> is_cited(
                keys,
                (#[trigger] used_references(references, keys)[i]).0,
            ) && references.contains(used_references(references, keys)[i]),
        forall|i: int, j: int|
            0 <= i < j < used_references(references, keys).len() ==> ordinal_of(
                keys,
                (#[trigger] used_references(references, keys)[i]).0,
            ) <= ordinal_of(keys, (#[trigger] used_references(references, keys)[j]).0),
        distinct_reference_keys(references) ==> forall|i: int, j: int|
            0 <= i < j < used_references(references, keys).len() ==> ordinal_of(
                keys,
                (#[trigger] used_references(references, keys)[i]).0,
            ) < ordinal_of(keys, (#[trigger] used_references(references, keys)[j]).0),
{
    let chosen = cited_only(references, keys);
    let unsorted = keyed_references(chosen, keys);
    let t = stable_sorted(unsorted);
    let out = used_references(references, keys);
    let holds = carries_ordinal(references, keys);
    lemma_cited_only(references, keys);
    assert forall|i: int| 0 <= i < unsorted.len() implies holds(#[trigger] unsorted[i]) by {
        assert(unsorted[i].item == chosen[i]);
    }
    lemma_stable_sorted_all(unsorted, holds);
    lemma_stable_sorted_ordered(unsorted);
    assert forall|i: int| 0 <= i < out.len() implies is_cited(keys, (#[trigger] out[i]).0)
        && references.contains(out[i]) by {
        assert(holds(t[i]));
    }
    assert forall|i: int, j: int| 0 <= i < j < out.len() implies ordinal_of(
        keys,
        (#[trigger] out[i]).0,
    ) <= ordinal_of(keys, (#[trigger] out[j]).0) by {
        assert(holds(t[i]) && holds(t[j]));
        assert(!t[j].key.precedes(t[i].key));
        lemma_ordinal_of(keys, out[i].0);
        lemma_ordinal_of(keys, out[j].0);
    }
    if distinct_reference_keys(references) {
        assert forall|i: int, j: int| 0 <= i < j < out.len() implies ordinal_of(
            keys,
            (#[trigger] out[i]).0,
        ) < ordinal_of(keys, (#[trigger] out[j]).0) by {
            assert(holds(t[i]) && holds(t[j]));
            lemma_ordinal_of(keys, out[i].0);
            lemma_ordinal_of(keys, out[j].0);
            if ordinal_of(keys, out[i].0) == ordinal_of(keys, out[j].0) {
                let k = t[i].key;
                assert(t[j].key == k);
                lemma_with_key_two(t, k, i, j);
                lemma_stable_sorted_keeps_order(unsorted, k);
                assert forall|a: int, b: int| 0 <= a < b < unsorted.len() implies !((
                #[trigger] unsorted[a]).key == k && (#[trigger] unsorted[b]).key == k) by {
                    assert(unsorted[a].item == chosen[a] && unsorted[b].item == chosen[b]);
                    assert(chosen[a].0 != chosen[b].0);
                    lemma_ordinal_of(keys, chosen[a].0);
                    lemma_ordinal_of(keys, chosen[b].0);
                }
                lemma_with_key_at_most_one(unsorted, k);
            }
        }
    }
}

/// Every cited reference of the list is among the cited ones.
pub proof fn lemma_cited_only_complete(
    references: Seq<(Seq<char>, Seq<char>)>,
    keys: Seq<Seq<char>>,
    x: (Seq<char>, Seq<char>),
)
    requires
        references.contains(x),
        is_cited(keys, x.0),
    ensures
        cited_only(references, keys).contains(x),
    decreases references.len(),
{
    let i = choose|i: int| 0 <= i < references.len() && references[i] == x;
    let head = references.drop_last();
    let out = cited_only(references, keys);
    if i == references.len() - 1 {
        assert(out[out.len() - 1] == x);
    } else {
        assert(head[i] == x);
        lemma_cited_only_complete(head, keys, x);
        let j = choose|j: int| 0 <= j < cited_only(head, keys).len() && cited_only(head, keys)[j]
            == x;
        assert(out[j] == x);
    }
}

/// Among references with distinct keys, the cited references with one
/// ordinal are at most one: the reference whose key has that ordinal, if it
/// is among them.
proof fn lemma_ordinal_class(
    references: Seq<(Seq<char>, Seq<char>)>,
    keys: Seq<Seq<char>>,
    k: SortKey,
)
    requires
        keys.len() <= usize::MAX,
        distinct_reference_keys(references),
    ensures
        ({
            let class = with_key(keyed_references(cited_only(references, keys), keys), k);
            &&& class.len() <= 1
            &&& class.len() == 1 ==> class[0].key == k && references.contains(class[0].item)
                && is_cited(keys, class[0].item.0) && ordinal_key(keys, class[0].item) == k
            &&& forall|x: (Seq<char>, Seq<char>)|
                references.contains(x) && is_cited(keys, x.0) && ordinal_key(keys, x) == k
                    ==> class.len() == 1 && class[0].item == x
        }),
{
    let chosen = cited_only(references, keys);
    let unsorted = keyed_references(chosen, keys);
    let class = with_key(unsorted, k);
    lemma_cited_only(references, keys);
    assert forall|a: int, b: int| 0 <= a < b < unsorted.len() implies !((#[trigger] unsorted[a]).key
        == k && (#[trigger] unsorted[b]).key == k) by {
        assert(unsorted[a].item == chosen[a] && unsorted[b].item == chosen[b]);
        assert(chosen[a].0 != chosen[b].0);
        lemma_ordinal_of(keys, chosen[a].0);
        lemma_ordinal_of(keys, chosen[b].0);
    }
    lemma_with_key_at_most_one(unsorted, k);
    lemma_with_key_len(unsorted, k);
    if class.len() == 1 {
        lemma_with_key_from(unsorted, k, 0);
        let m = choose|m: int| 0 <= m < unsorted.len() && unsorted[m] == class[0];
        assert(unsorted[m].item == chosen[m]);
    }
    assert forall|x: (Seq<char>, Seq<char>)|
        references.contains(x) && is_cited(keys, x.0) && ordinal_key(keys, x) == k implies class.len()
            == 1 && class[0].item == x by {
        lemma_cited_only_complete(references, keys, x);
        let m = choose|m: int| 0 <= m < chosen.len() && chosen[m] == x;
        assert(unsorted[m].item == x && unsorted[m].key == k);
        lemma_with_key_one(unsorted, k, m);
        lemma_with_key_from(unsorted, k, 0);
        let n = choose|n: int| 0 <= n < unsorted.len() && unsorted[n] == class[0];
        assert(class[0].key == k);
        if n < m {
            assert(!(unsorted[n].key == k && unsorted[m].key == k));
        } else if m < n {
            assert(!(unsorted[m].key == k && unsorted[n].key == k));
        }
    }
}

/// The final reference list does not depend on the order in which the
/// references are given: two lists of references with distinct keys that
/// hold the same references give the same final list.
pub proof fn lemma_reference_list_ignores_order(
    first: Seq<(Seq<char>, Seq<char>)>,
    second: Seq<(Seq<char>, Seq<char>)>,
    keys: Seq<Seq<char>>,
)
    requires
        keys.len() <= usize::MAX,
        distinct_reference_keys(first),
        distinct_reference_keys(second),
        forall|x: (Seq<char>, Seq<char>)| first.contains(x) <==> second.contains(x),
    ensures
        used_references(first, keys) == used_references(second, keys),
{
    let u1 = keyed_references(cited_only(first, keys), keys);
    let u2 = keyed_references(cited_only(second, keys), keys);
    lemma_stable_sorted_ordered(u1);
    lemma_stable_sorted_ordered(u2);
    assert forall|k: SortKey| with_key(stable_sorted(u1), k) == with_key(stable_sorted(u2), k) by {
        lemma_stable_sorted_keeps_order(u1, k);
        lemma_stable_sorted_keeps_order(u2, k);
        lemma_ordinal_class(first, keys, k);
        lemma_ordinal_class(second, keys, k);
        let c1 = with_key(u1, k);
        let c2 = with_key(u2, k);
        if c1.len() == 1 {
            assert(second.contains(c1[0].item));
            assert(c2.len() == 1 && c2[0].item == c1[0].item);
            assert(c1[0] == c2[0]);
            assert(c1 =~= c2);
        } else if c2.len() == 1 {
            assert(first.contains(c2[0].item));
            assert(false);
        } else {
            assert(c1 =~= c2);
        }
    }
    lemma_ordered_lists_equal(stable_sorted(u1), stable_sorted(u2));
}

} // verus!
