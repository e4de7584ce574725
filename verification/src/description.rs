//! Pipeline descriptions: the components of a pipeline by category and identifier, with
//! the union and the removal that a reconfiguration is made of.

use vstd::prelude::*;

verus! {

/// One named node of a pipeline: its identifier and its definition, both as text.
#[derive(Debug, PartialEq)]
pub struct Component {
    pub id: String,
    pub definition: String,
}

/// The mathematical value of a [`Component`].
pub struct ComponentView {
    pub id: Seq<char>,
    pub definition: Seq<char>,
}

impl View for Component {
    type V = ComponentView;

    open spec fn view(&self) -> ComponentView {
        ComponentView { id: self.id@, definition: self.definition@ }
    }
}

/// The components of one category, in the order in which they were first named.
pub open spec fn entries(components: Seq<Component>) -> Seq<ComponentView> {
    components.map_values(|c: Component| c@)
}

/// No identifier occurs twice.
pub open spec fn unique_ids(list: Seq<ComponentView>) -> bool {
    forall|i: int, j: int| 0 <= i < j < list.len() ==> list[i].id != list[j].id
}

/// Some component of `list` is named `id`.
pub open spec fn has_id(list: Seq<ComponentView>, id: Seq<char>) -> bool {
    exists|i: int| 0 <= i < list.len() && #[trigger] list[i].id == id
}

/// The position of the first component named `id`, or the length of `list` if there is none.
pub open spec fn position(list: Seq<ComponentView>, id: Seq<char>) -> int
    decreases list.len(),
{
    if list.len() == 0 {
        0
    } else if list[0].id == id {
        0
    } else {
        1 + position(list.drop_first(), id)
    }
}

/// The definitions of `list` by identifier; of two components with one name the first counts.
pub open spec fn definitions(list: Seq<ComponentView>) -> Map<Seq<char>, Seq<char>> {
    Map::new(|id: Seq<char>| has_id(list, id), |id: Seq<char>| list[position(list, id)].definition)
}

/// The position of an identifier is where its first component stands: within the list
/// exactly if some component has the identifier, and behind every component that has not.
pub proof fn lemma_position(list: Seq<ComponentView>, id: Seq<char>)
    ensures
        0 <= position(list, id) <= list.len(),
        has_id(list, id) <==> position(list, id) < list.len(),
        position(list, id) < list.len() ==> list[position(list, id)].id == id,
        forall|i: int| 0 <= i < position(list, id) ==> list[i].id != id,
    decreases list.len(),
{
    if list.len() == 0 {
    } else if list[0].id == id {
    } else {
        let rest = list.drop_first();
        lemma_position(rest, id);
        if has_id(list, id) {
            let i = choose|i: int| 0 <= i < list.len() && #[trigger] list[i].id == id;
            assert(rest[i - 1].id == id);
        }
        if position(rest, id) < rest.len() {
            assert(list[position(rest, id) + 1].id == id);
        }
        assert forall|i: int| 0 <= i < position(list, id) implies list[i].id != id by {
            if i > 0 {
                assert(rest[i - 1].id != id);
            }
        }
    }
}

/// Where `list` holds a component named `id`, in the component's position; else one past the end.
pub fn find(list: &Vec<Component>, id: &String) -> (at: usize)
    ensures
        at == position(entries(list@), id@),
        at <= list.len(),
        at < list.len() <==> has_id(entries(list@), id@),
{
    let mut i: usize = 0;
    while i < list.len()
        invariant
            i <= list.len(),
            forall|k: int| 0 <= k < i ==> entries(list@)[k].id != id@,
        decreases list.len() - i,
    {
        if list[i].id == *id {
            proof {
                lemma_position(entries(list@), id@);
                assert(entries(list@)[i as int].id == id@);
            }
            return i;
        }
        i += 1;
    }
    proof {
        lemma_position(entries(list@), id@);
    }
    i
}

/// `list` with `c` in it: in the place of the component of the same name, or at the end.
pub open spec fn upsert(list: Seq<ComponentView>, c: ComponentView) -> Seq<ComponentView> {
    let at = position(list, c.id);
    if at < list.len() {
        list.update(at, c)
    } else {
        list.push(c)
    }
}

/// `list` after each component of `incoming` was put into it, first to last.
pub open spec fn merge(list: Seq<ComponentView>, incoming: Seq<ComponentView>) -> Seq<
    ComponentView,
>
    decreases incoming.len(),
{
    if incoming.len() == 0 {
        list
    } else {
        upsert(merge(list, incoming.drop_last()), incoming.last())
    }
}

/// `list` without its first component named `id`.
pub open spec fn without(list: Seq<ComponentView>, id: Seq<char>) -> Seq<ComponentView> {
    let at = position(list, id);
    if at < list.len() {
        list.remove(at)
    } else {
        list
    }
}

/// `list` after the components named in `ids` were taken out, first to last.
pub open spec fn without_all(list: Seq<ComponentView>, ids: Seq<Seq<char>>) -> Seq<ComponentView>
    decreases ids.len(),
{
    if ids.len() == 0 {
        list
    } else {
        without(without_all(list, ids.drop_last()), ids.last())
    }
}

/// Putting a component into a list keeps every earlier component in its place, keeps the
/// identifiers unique, and changes the definition of that one identifier only.
pub proof fn lemma_upsert(list: Seq<ComponentView>, c: ComponentView)
    requires
        unique_ids(list),
    ensures
        unique_ids(upsert(list, c)),
        upsert(list, c).len() >= list.len(),
        forall|i: int| 0 <= i < list.len() ==> (#[trigger] upsert(list, c)[i]).id == list[i].id,
        forall|id: Seq<char>| has_id(upsert(list, c), id) <==> (id == c.id || has_id(list, id)),
        definitions(upsert(list, c)) == definitions(list).insert(c.id, c.definition),
{
    let after = upsert(list, c);
    let at = position(list, c.id);
    lemma_position(list, c.id);
    assert forall|id: Seq<char>| has_id(after, id) <==> (id == c.id || has_id(list, id)) by {
        if has_id(after, id) {
            let i = choose|i: int| 0 <= i < after.len() && #[trigger] after[i].id == id;
            if i < list.len() && i != at {
                assert(list[i].id == id);
            }
        }
        if has_id(list, id) {
            let i = choose|i: int| 0 <= i < list.len() && #[trigger] list[i].id == id;
            assert(after[i].id == id);
        }
        if id == c.id {
            assert(after[at].id == id);
        }
    }
    assert forall|id: Seq<char>| has_id(after, id) implies #[trigger] definitions(after)[id]
        == definitions(list).insert(c.id, c.definition)[id] by {
        lemma_position(after, id);
        lemma_position(list, id);
        let p = position(after, id);
        if id == c.id {
            assert(after[at].id == id);
            if p != at {
                if p < at {
                    assert(list[p].id == id);
                } else {
                    assert(after[at].id == after[p].id);
                }
            }
        } else {
            assert(p != at);
            assert(list[p].id == id);
            let q = position(list, id);
            assert(after[q].id == id);
            if p < q {
                assert(list[p].id == list[q].id);
            } else if q < p {
                assert(after[q].id == after[p].id);
            }
        }
    }
    assert(definitions(after) =~= definitions(list).insert(c.id, c.definition));
}

/// Taking an identifier out of a list with unique identifiers keeps them unique and removes
/// that identifier's definition, and no other.
pub proof fn lemma_without(list: Seq<ComponentView>, id: Seq<char>)
    requires
        unique_ids(list),
    ensures
        unique_ids(without(list, id)),
        !has_id(without(list, id), id),
        forall|other: Seq<char>|
            has_id(without(list, id), other) <==> (other != id && has_id(list, other)),
        definitions(without(list, id)) == definitions(list).remove(id),
        !has_id(list, id) ==> without(list, id) == list,
{
    let after = without(list, id);
    let at = position(list, id);
    lemma_position(list, id);
    if at < list.len() {
        assert forall|other: Seq<char>|
            has_id(after, other) <==> (other != id && has_id(list, other)) by {
            if has_id(after, other) {
                let i = choose|i: int| 0 <= i < after.len() && #[trigger] after[i].id == other;
                if i < at {
                    assert(list[i].id == other);
                } else {
                    assert(list[i + 1].id == other);
                    assert(list[at].id != list[i + 1].id);
                }
            }
            if other != id && has_id(list, other) {
                let i = choose|i: int| 0 <= i < list.len() && #[trigger] list[i].id == other;
                if i < at {
                    assert(after[i].id == other);
                } else {
                    assert(after[i - 1].id == other);
                }
            }
        }
        assert forall|other: Seq<char>| has_id(after, other) implies #[trigger] definitions(
            after,
        )[other] == definitions(list).remove(id)[other] by {
            lemma_position(after, other);
            lemma_position(list, other);
            let p = position(after, other);
            let q = position(list, other);
            let p_in_list = if p < at {
                p
            } else {
                p + 1
            };
            assert(list[p_in_list].id == other);
            if p_in_list != q {
                if p_in_list < q {
                    assert(list[p_in_list].id == list[q].id);
                } else {
                    assert(list[q].id == list[p_in_list].id);
                }
            }
        }
        assert(definitions(after) =~= definitions(list).remove(id));
    } else {
        assert(definitions(after) =~= definitions(list).remove(id));
    }
}

/// Merging keeps every component of `list` in its place and the identifiers unique; the
/// result names what either list names; and where `incoming` names nothing twice, its
/// definitions win over those of `list`.
pub proof fn lemma_merge(list: Seq<ComponentView>, incoming: Seq<ComponentView>)
    requires
        unique_ids(list),
    ensures
        unique_ids(merge(list, incoming)),
        merge(list, incoming).len() >= list.len(),
        forall|i: int|
            0 <= i < list.len() ==> (#[trigger] merge(list, incoming)[i]).id == list[i].id,
        forall|id: Seq<char>|
            has_id(merge(list, incoming), id) <==> (has_id(list, id) || has_id(incoming, id)),
        unique_ids(incoming) ==> definitions(merge(list, incoming)) == definitions(
            list,
        ).union_prefer_right(definitions(incoming)),
    decreases incoming.len(),
{
    if incoming.len() == 0 {
        assert(definitions(incoming) =~= Map::<Seq<char>, Seq<char>>::empty());
        assert(definitions(list).union_prefer_right(definitions(incoming)) =~= definitions(list));
    } else {
        let front = incoming.drop_last();
        let last = incoming.last();
        let before = merge(list, front);
        lemma_merge(list, front);
        lemma_upsert(before, last);
        assert forall|id: Seq<char>|
            has_id(incoming, id) <==> (has_id(front, id) || id == last.id) by {
            if has_id(incoming, id) {
                let i = choose|i: int| 0 <= i < incoming.len() && #[trigger] incoming[i].id == id;
                if i < front.len() {
                    assert(front[i].id == id);
                }
            }
            if has_id(front, id) {
                let i = choose|i: int| 0 <= i < front.len() && #[trigger] front[i].id == id;
                assert(incoming[i].id == id);
            }
            if id == last.id {
                assert(incoming[incoming.len() - 1].id == id);
            }
        }
        if unique_ids(incoming) {
            assert(unique_ids(front)) by {
                assert forall|i: int, j: int| 0 <= i < j < front.len() implies front[i].id
                    != front[j].id by {
                    assert(incoming[i].id != incoming[j].id);
                }
            }
            lemma_position(front, last.id);
            if has_id(front, last.id) {
                let i = position(front, last.id);
                assert(incoming[i].id == incoming[incoming.len() - 1].id);
            }
            assert(upsert(front, last) =~= incoming);
            lemma_upsert(front, last);
            assert(definitions(merge(list, incoming)) =~= definitions(list).union_prefer_right(
                definitions(incoming),
            ));
        }
    }
}

/// Taking identifiers out of a list with unique identifiers keeps them unique, leaves the
/// other components in their order, and removes exactly the definitions that were named.
pub proof fn lemma_without_all(list: Seq<ComponentView>, ids: Seq<Seq<char>>)
    requires
        unique_ids(list),
    ensures
        unique_ids(without_all(list, ids)),
        forall|id: Seq<char>|
            has_id(without_all(list, ids), id) <==> (has_id(list, id) && !ids.contains(id)),
        definitions(without_all(list, ids)) == definitions(list).remove_keys(ids.to_set()),
        (forall|k: int| 0 <= k < ids.len() ==> !has_id(list, #[trigger] ids[k])) ==> without_all(
            list,
            ids,
        ) == list,
    decreases ids.len(),
{
    if ids.len() == 0 {
        assert(definitions(list).remove_keys(ids.to_set()) =~= definitions(list));
    } else {
        let front = ids.drop_last();
        let before = without_all(list, front);
        lemma_without_all(list, front);
        lemma_without(before, ids.last());
        assert forall|id: Seq<char>| ids.contains(id) <==> (front.contains(id) || id
            == ids.last()) by {
            if ids.contains(id) {
                let k = choose|k: int| 0 <= k < ids.len() && ids[k] == id;
                if k < front.len() {
                    assert(front[k] == id);
                }
            }
            if front.contains(id) {
                let k = choose|k: int| 0 <= k < front.len() && front[k] == id;
                assert(ids[k] == id);
            }
            if id == ids.last() {
                assert(ids[ids.len() - 1] == id);
            }
        }
        assert(definitions(without_all(list, ids)) =~= definitions(list).remove_keys(
            ids.to_set(),
        ));
        if forall|k: int| 0 <= k < ids.len() ==> !has_id(list, #[trigger] ids[k]) {
            assert forall|k: int| 0 <= k < front.len() implies !has_id(
                list,
                #[trigger] front[k],
            ) by {
                assert(front[k] == ids[k]);
            }
            assert(!has_id(list, ids[ids.len() - 1]));
        }
    }
}

/// A copy of `c`.
pub fn copy_component(c: &Component) -> (copy: Component)
    ensures
        copy@ == c@,
{
    Component { id: c.id.clone(), definition: c.definition.clone() }
}

/// A copy of `list`, component for component.
pub fn copy_components(list: &Vec<Component>) -> (copy: Vec<Component>)
    ensures
        entries(copy@) == entries(list@),
{
    let mut copy: Vec<Component> = Vec::new();
    let mut i: usize = 0;
    while i < list.len()
        invariant
            i <= list.len(),
            copy.len() == i,
            entries(copy@) == entries(list@).take(i as int),
        decreases list.len() - i,
    {
        let ghost before = copy@;
        copy.push(copy_component(&list[i]));
        assert forall|k: int| 0 <= k < i + 1 implies entries(copy@)[k] == entries(list@).take(
            i + 1,
        )[k] by {
            if k < i {
                assert(entries(before)[k] == entries(list@).take(i as int)[k]);
            }
        }
        assert(entries(copy@) =~= entries(list@).take(i + 1));
        i += 1;
    }
    assert(entries(list@).take(list.len() as int) =~= entries(list@));
    copy
}

/// Puts `c` into `list`: in the place of the component of the same name, or at the end.
pub fn put(list: &mut Vec<Component>, c: Component)
    ensures
        entries(final(list)@) == upsert(entries(old(list)@), c@),
{
    let at = find(list, &c.id);
    if at < list.len() {
        list[at] = c;
        assert(entries(list@) =~= upsert(entries(old(list)@), c@));
    } else {
        list.push(c);
        assert(entries(list@) =~= upsert(entries(old(list)@), c@));
    }
}

/// Puts a copy of each component of `incoming` into `list`, first to last.
pub fn put_all(list: &mut Vec<Component>, incoming: &Vec<Component>)
    ensures
        entries(final(list)@) == merge(entries(old(list)@), entries(incoming@)),
{
    let mut i: usize = 0;
    while i < incoming.len()
        invariant
            i <= incoming.len(),
            entries(list@) == merge(entries(old(list)@), entries(incoming@).take(i as int)),
        decreases incoming.len() - i,
    {
        put(list, copy_component(&incoming[i]));
        proof {
            let next = entries(incoming@).take(i + 1);
            assert(next.drop_last() =~= entries(incoming@).take(i as int));
            assert(next.last() == incoming[i as int]@);
        }
        i += 1;
    }
    assert(entries(incoming@).take(incoming.len() as int) =~= entries(incoming@));
}

/// Takes the component named `id` out of `list`, if there is one, and says whether there was.
pub fn take_out(list: &mut Vec<Component>, id: &String) -> (found: bool)
    ensures
        found == has_id(entries(old(list)@), id@),
        entries(final(list)@) == without(entries(old(list)@), id@),
{
    let at = find(list, id);
    if at < list.len() {
        list.remove(at);
        assert(entries(list@) =~= without(entries(old(list)@), id@));
        true
    } else {
        false
    }
}

/// The identifiers of `list`, in order.
pub open spec fn ids_of(list: Seq<ComponentView>) -> Seq<Seq<char>> {
    list.map_values(|c: ComponentView| c.id)
}

/// No identifier is in both lists.
pub open spec fn disjoint_ids(a: Seq<ComponentView>, b: Seq<ComponentView>) -> bool {
    forall|id: Seq<char>| !(has_id(a, id) && has_id(b, id))
}

/// The mathematical value of a [`PipelineDescription`]: its components by category, each
/// category in the order in which its identifiers were first named.
pub struct DescriptionView {
    pub sources: Seq<ComponentView>,
    pub transforms: Seq<ComponentView>,
    pub sinks: Seq<ComponentView>,
}

impl DescriptionView {
    /// Identifiers are unique within each category, and no source shares its identifier with
    /// a transform.
    pub open spec fn valid(self) -> bool {
        &&& unique_ids(self.sources)
        &&& unique_ids(self.transforms)
        &&& unique_ids(self.sinks)
        &&& disjoint_ids(self.sources, self.transforms)
    }

    /// The description without any component.
    pub open spec fn empty() -> DescriptionView {
        DescriptionView { sources: Seq::empty(), transforms: Seq::empty(), sinks: Seq::empty() }
    }

    /// The key-wise union with `fragment`, category by category: a component of `fragment`
    /// takes the place of the component of the same name, or comes after the others.
    pub open spec fn merged(self, fragment: DescriptionView) -> DescriptionView {
        DescriptionView {
            sources: merge(self.sources, fragment.sources),
            transforms: merge(self.transforms, fragment.transforms),
            sinks: merge(self.sinks, fragment.sinks),
        }
    }

    /// The description without the sources and transforms named in `ids`; sinks stay.
    pub open spec fn reduced(self, ids: Seq<Seq<char>>) -> DescriptionView {
        DescriptionView {
            sources: without_all(self.sources, ids),
            transforms: without_all(self.transforms, ids),
            sinks: self.sinks,
        }
    }

    /// Some source or transform is named `id`.
    pub open spec fn names(self, id: Seq<char>) -> bool {
        has_id(self.sources, id) || has_id(self.transforms, id)
    }
}

/// Taking sources and transforms out of a valid description leaves a valid description.
pub proof fn lemma_reduced_valid(d: DescriptionView, ids: Seq<Seq<char>>)
    requires
        d.valid(),
    ensures
        d.reduced(ids).valid(),
{
    lemma_without_all(d.sources, ids);
    lemma_without_all(d.transforms, ids);
    assert forall|id: Seq<char>|
        !(has_id(d.reduced(ids).sources, id) && has_id(d.reduced(ids).transforms, id)) by {
        assert(!(has_id(d.sources, id) && has_id(d.transforms, id)));
    }
}

/// The union of two valid descriptions is valid exactly if no source of the one has the
/// name of a transform of the other.
pub proof fn lemma_merged_valid(current: DescriptionView, fragment: DescriptionView)
    requires
        current.valid(),
        fragment.valid(),
    ensures
        current.merged(fragment).valid() <==> (disjoint_ids(current.sources, fragment.transforms)
            && disjoint_ids(fragment.sources, current.transforms)),
{
    let merged = current.merged(fragment);
    lemma_merge(current.sources, fragment.sources);
    lemma_merge(current.transforms, fragment.transforms);
    lemma_merge(current.sinks, fragment.sinks);
    if merged.valid() {
        assert forall|id: Seq<char>|
            !(has_id(current.sources, id) && has_id(fragment.transforms, id)) by {
            assert(!(has_id(merged.sources, id) && has_id(merged.transforms, id)));
        }
        assert forall|id: Seq<char>|
            !(has_id(fragment.sources, id) && has_id(current.transforms, id)) by {
            assert(!(has_id(merged.sources, id) && has_id(merged.transforms, id)));
        }
    }
    if disjoint_ids(current.sources, fragment.transforms) && disjoint_ids(
        fragment.sources,
        current.transforms,
    ) {
        assert forall|id: Seq<char>|
            !(has_id(merged.sources, id) && has_id(merged.transforms, id)) by {
            assert(!(has_id(current.sources, id) && has_id(current.transforms, id)));
            assert(!(has_id(fragment.sources, id) && has_id(fragment.transforms, id)));
            assert(!(has_id(current.sources, id) && has_id(fragment.transforms, id)));
            assert(!(has_id(fragment.sources, id) && has_id(current.transforms, id)));
        }
    }
}

/// Some identifier of `ids` names a source or a transform of `d`.
pub open spec fn names_any(d: DescriptionView, ids: Seq<Seq<char>>) -> bool {
    exists|k: int| 0 <= k < ids.len() && d.names(#[trigger] ids[k])
}

/// A declarative description of a pipeline: its sources, transforms and sinks by identifier.
#[derive(Debug, PartialEq)]
pub struct PipelineDescription {
    sources: Vec<Component>,
    transforms: Vec<Component>,
    sinks: Vec<Component>,
}

impl View for PipelineDescription {
    type V = DescriptionView;

    closed spec fn view(&self) -> DescriptionView {
        DescriptionView {
            sources: entries(self.sources@),
            transforms: entries(self.transforms@),
            sinks: entries(self.sinks@),
        }
    }
}

impl PipelineDescription {
    /// The invariant of every description that this library hands out.
    pub open spec fn wf(&self) -> bool {
        self@.valid()
    }

    /// A description without components.
    pub fn new() -> (d: PipelineDescription)
        ensures
            d.wf(),
            d@ == DescriptionView::empty(),
    {
        let d = PipelineDescription {
            sources: Vec::new(),
            transforms: Vec::new(),
            sinks: Vec::new(),
        };
        assert(d@.sources =~= Seq::empty());
        assert(d@.transforms =~= Seq::empty());
        assert(d@.sinks =~= Seq::empty());
        d
    }

    /// Defines the source `id`, in place of an earlier definition of that source. A transform
    /// of that name stands in the way: then nothing changes and the result is `false`.
    pub fn add_source(&mut self, id: &str, definition: &str) -> (added: bool)
        requires
            old(self).wf(),
        ensures
            final(self).wf(),
            added == !has_id(old(self)@.transforms, id@),
            added ==> final(self)@ == (DescriptionView {
                sources: upsert(
                    old(self)@.sources,
                    ComponentView { id: id@, definition: definition@ },
                ),
                ..old(self)@
            }),
            !added ==> final(self)@ == old(self)@,
    {
        let c = Component { id: id.to_owned(), definition: definition.to_owned() };
        if find(&self.transforms, &c.id) < self.transforms.len() {
            return false;
        }
        proof {
            lemma_upsert(old(self)@.sources, c@);
        }
        put(&mut self.sources, c);
        true
    }

    /// Defines the transform `id`, in place of an earlier definition of that transform. A
    /// source of that name stands in the way: then nothing changes and the result is `false`.
    pub fn add_transform(&mut self, id: &str, definition: &str) -> (added: bool)
        requires
            old(self).wf(),
        ensures
            final(self).wf(),
            added == !has_id(old(self)@.sources, id@),
            added ==> final(self)@ == (DescriptionView {
                transforms: upsert(
                    old(self)@.transforms,
                    ComponentView { id: id@, definition: definition@ },
                ),
                ..old(self)@
            }),
            !added ==> final(self)@ == old(self)@,
    {
        let c = Component { id: id.to_owned(), definition: definition.to_owned() };
        if find(&self.sources, &c.id) < self.sources.len() {
            return false;
        }
        proof {
            lemma_upsert(old(self)@.transforms, c@);
        }
        put(&mut self.transforms, c);
        true
    }

    /// Defines the sink `id`, in place of an earlier definition of that sink.
    pub fn add_sink(&mut self, id: &str, definition: &str)
        requires
            old(self).wf(),
        ensures
            final(self).wf(),
            final(self)@ == (DescriptionView {
                sinks: upsert(old(self)@.sinks, ComponentView { id: id@, definition: definition@ }),
                ..old(self)@
            }),
    {
        let c = Component { id: id.to_owned(), definition: definition.to_owned() };
        proof {
            lemma_upsert(old(self)@.sinks, c@);
        }
        put(&mut self.sinks, c);
    }
}

/// The texts of `strings`, in order.
pub open spec fn texts(strings: Seq<String>) -> Seq<Seq<char>> {
    strings.map_values(|s: String| s@)
}

/// The definition of the component named `id`, if `list` has one.
pub fn definition_of<'a>(list: &'a Vec<Component>, id: &str) -> (found: Option<&'a String>)
    ensures
        found is Some <==> has_id(entries(list@), id@),
        found is Some ==> found.unwrap()@ == definitions(entries(list@))[id@],
{
    let at = find(list, &id.to_owned());
    if at < list.len() {
        Some(&list[at].definition)
    } else {
        None
    }
}

/// The identifiers of `list`, in order.
pub fn identifiers(list: &Vec<Component>) -> (ids: Vec<String>)
    ensures
        texts(ids@) == ids_of(entries(list@)),
{
    let mut ids: Vec<String> = Vec::new();
    let mut i: usize = 0;
    while i < list.len()
        invariant
            i <= list.len(),
            ids.len() == i,
            forall|k: int| 0 <= k < i ==> (#[trigger] ids@[k])@ == list@[k].id@,
        decreases list.len() - i,
    {
        ids.push(list[i].id.clone());
        i += 1;
    }
    assert(texts(ids@) =~= ids_of(entries(list@)));
    ids
}

/// Whether no identifier is in both lists.
pub fn no_shared_id(a: &Vec<Component>, b: &Vec<Component>) -> (disjoint: bool)
    ensures
        disjoint == disjoint_ids(entries(a@), entries(b@)),
{
    let mut i: usize = 0;
    while i < a.len()
        invariant
            i <= a.len(),
            forall|k: int| 0 <= k < i ==> !has_id(entries(b@), #[trigger] entries(a@)[k].id),
        decreases a.len() - i,
    {
        if find(b, &a[i].id) < b.len() {
            assert(has_id(entries(a@), entries(a@)[i as int].id));
            return false;
        }
        i += 1;
    }
    assert forall|id: Seq<char>| !(has_id(entries(a@), id) && has_id(entries(b@), id)) by {
        if has_id(entries(a@), id) {
            let k = choose|k: int| 0 <= k < a.len() && #[trigger] entries(a@)[k].id == id;
            assert(!has_id(entries(b@), entries(a@)[k].id));
        }
    }
    true
}

impl PipelineDescription {
    /// A copy of this description.
    pub fn copy(&self) -> (c: PipelineDescription)
        ensures
            c@ == self@,
    {
        PipelineDescription {
            sources: copy_components(&self.sources),
            transforms: copy_components(&self.transforms),
            sinks: copy_components(&self.sinks),
        }
    }

    /// The definition of the source `id`, if there is one.
    pub fn source(&self, id: &str) -> (found: Option<&String>)
        ensures
            found is Some <==> has_id(self@.sources, id@),
            found is Some ==> found.unwrap()@ == definitions(self@.sources)[id@],
    {
        definition_of(&self.sources, id)
    }

    /// The definition of the transform `id`, if there is one.
    pub fn transform(&self, id: &str) -> (found: Option<&String>)
        ensures
            found is Some <==> has_id(self@.transforms, id@),
            found is Some ==> found.unwrap()@ == definitions(self@.transforms)[id@],
    {
        definition_of(&self.transforms, id)
    }

    /// The definition of the sink `id`, if there is one.
    pub fn sink(&self, id: &str) -> (found: Option<&String>)
        ensures
            found is Some <==> has_id(self@.sinks, id@),
            found is Some ==> found.unwrap()@ == definitions(self@.sinks)[id@],
    {
        definition_of(&self.sinks, id)
    }

    /// The identifiers of the sources, in order.
    pub fn source_ids(&self) -> (ids: Vec<String>)
        ensures
            texts(ids@) == ids_of(self@.sources),
    {
        identifiers(&self.sources)
    }

    /// The identifiers of the transforms, in order.
    pub fn transform_ids(&self) -> (ids: Vec<String>)
        ensures
            texts(ids@) == ids_of(self@.transforms),
    {
        identifiers(&self.transforms)
    }

    /// The identifiers of the sinks, in order.
    pub fn sink_ids(&self) -> (ids: Vec<String>)
        ensures
            texts(ids@) == ids_of(self@.sinks),
    {
        identifiers(&self.sinks)
    }

    /// The key-wise union of this description with `fragment`, where a definition of
    /// `fragment` replaces the one of the same name; `None` where the union would give a
    /// source and a transform one name, which no pipeline can be built from.
    pub fn merge(&self, fragment: &PipelineDescription) -> (merged: Option<PipelineDescription>)
        requires
            self.wf(),
            fragment.wf(),
        ensures
            merged is Some <==> self@.merged(fragment@).valid(),
            merged is Some ==> merged.unwrap()@ == self@.merged(fragment@),
    {
        let mut next = self.copy();
        put_all(&mut next.sources, &fragment.sources);
        put_all(&mut next.transforms, &fragment.transforms);
        put_all(&mut next.sinks, &fragment.sinks);
        proof {
            lemma_merge(self@.sources, fragment@.sources);
            lemma_merge(self@.transforms, fragment@.transforms);
            lemma_merge(self@.sinks, fragment@.sinks);
        }
        if no_shared_id(&next.sources, &next.transforms) {
            Some(next)
        } else {
            None
        }
    }

    /// This description without the sources and transforms named in `ids`, and whether any
    /// of `ids` named one. Identifiers that name nothing, or a sink, are passed over.
    pub fn remove_all(&self, ids: &Vec<String>) -> (reduced: (PipelineDescription, bool))
        requires
            self.wf(),
        ensures
            reduced.0.wf(),
            reduced.0@ == self@.reduced(texts(ids@)),
            reduced.1 == names_any(self@, texts(ids@)),
    {
        let mut next = self.copy();
        let mut changed = false;
        let mut i: usize = 0;
        while i < ids.len()
            invariant
                i <= ids.len(),
                self.wf(),
                next@.sinks == self@.sinks,
                next@.sources == without_all(self@.sources, texts(ids@).take(i as int)),
                next@.transforms == without_all(self@.transforms, texts(ids@).take(i as int)),
                changed == names_any(self@, texts(ids@).take(i as int)),
            decreases ids.len() - i,
        {
            let ghost done = texts(ids@).take(i as int);
            let ghost id = ids@[i as int]@;
            proof {
                lemma_without_all(self@.sources, done);
                lemma_without_all(self@.transforms, done);
                lemma_without(next@.sources, id);
                lemma_without(next@.transforms, id);
                assert(texts(ids@).take(i + 1).drop_last() =~= done);
                assert(texts(ids@).take(i + 1).last() == id);
            }
            let in_sources = take_out(&mut next.sources, &ids[i]);
            if in_sources {
                changed = true;
            } else {
                let in_transforms = take_out(&mut next.transforms, &ids[i]);
                if in_transforms {
                    changed = true;
                }
            }
            proof {
                let next = texts(ids@).take(i + 1);
                if names_any(self@, done) {
                    let k = choose|k: int| 0 <= k < done.len() && self@.names(#[trigger] done[k]);
                    assert(self@.names(next[k]));
                }
                if self@.names(id) {
                    assert(self@.names(next[i as int]));
                }
                if names_any(self@, next) {
                    let k = choose|k: int| 0 <= k < next.len() && self@.names(#[trigger] next[k]);
                    if k < i {
                        assert(self@.names(done[k]));
                    }
                }
            }
            i += 1;
        }
        proof {
            assert(texts(ids@).take(ids.len() as int) =~= texts(ids@));
            lemma_reduced_valid(self@, texts(ids@));
        }
        (next, changed)
    }
}

/// Whether no identifier occurs twice in `list`.
pub fn has_unique_ids(list: &Vec<Component>) -> (unique: bool)
    ensures
        unique == unique_ids(entries(list@)),
{
    let mut j: usize = 0;
    while j < list.len()
        invariant
            j <= list.len(),
            forall|a: int, b: int| 0 <= a < b < j ==> entries(list@)[a].id != entries(list@)[b].id,
        decreases list.len() - j,
    {
        let first = find(list, &list[j].id);
        proof {
            lemma_position(entries(list@), list@[j as int].id@);
        }
        if first < j {
            assert(entries(list@)[first as int].id == entries(list@)[j as int].id);
            return false;
        }
        assert forall|a: int, b: int| 0 <= a < b < j + 1 implies entries(list@)[a].id != entries(
            list@,
        )[b].id by {
            if b == j {
                assert(a < first);
            }
        }
        j += 1;
    }
    true
}

impl PipelineDescription {
    /// The description with these components, in these orders, if they make a valid one:
    /// no identifier twice in a category, and none shared by a source and a transform.
    pub fn from_components(
        sources: Vec<Component>,
        transforms: Vec<Component>,
        sinks: Vec<Component>,
    ) -> (description: Option<PipelineDescription>)
        ensures
            description is Some <==> (DescriptionView {
                sources: entries(sources@),
                transforms: entries(transforms@),
                sinks: entries(sinks@),
            }).valid(),
            description matches Some(d) ==> d@ == (DescriptionView {
                sources: entries(sources@),
                transforms: entries(transforms@),
                sinks: entries(sinks@),
            }),
    {
        if has_unique_ids(&sources) && has_unique_ids(&transforms) && has_unique_ids(&sinks)
            && no_shared_id(&sources, &transforms) {
            Some(PipelineDescription { sources, transforms, sinks })
        } else {
            None
        }
    }
}

} // verus!
