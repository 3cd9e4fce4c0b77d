//! The CSS data the server knows, gathered from its providers and looked up by name.
use crate::css_language_types::{
    AtDirectiveData, EntryStatus, PropertyData, ProvideCssData, PseudoClassData, PseudoElementData,
};
use crate::text::{lowercase, str_to_lowercase};
use vstd::prelude::*;

verus! {

/// An entry of CSS data, known by its name.
pub trait Named {
    spec fn spec_name(&self) -> Seq<char>;

    fn entry_name(&self) -> (r: &String)
        ensures
            r@ == self.spec_name(),
    ;
}

impl Named for PropertyData {
    open spec fn spec_name(&self) -> Seq<char> {
        self.name@
    }

    fn entry_name(&self) -> (r: &String) {
        &self.name
    }
}

impl Named for AtDirectiveData {
    open spec fn spec_name(&self) -> Seq<char> {
        self.name@
    }

    fn entry_name(&self) -> (r: &String) {
        &self.name
    }
}

/// No two entries of `s` share a name.
pub open spec fn names_unique<T: Named>(s: Seq<T>) -> bool {
    forall|i: int, j: int|
        0 <= i < j < s.len() ==> (#[trigger] s[i]).spec_name() != (#[trigger] s[j]).spec_name()
}

/// The entries of `s` by name; of two entries with one name the later counts.
pub open spec fn by_name<T: Named>(s: Seq<T>) -> Map<Seq<char>, T>
    decreases s.len(),
{
    if s.len() == 0 {
        Map::empty()
    } else {
        by_name(s.drop_last()).insert(s.last().spec_name(), s.last())
    }
}

/// `m` after inserting the entries of `items` by name, in order.
pub open spec fn inserted<T: Named>(m: Map<Seq<char>, T>, items: Seq<T>) -> Map<Seq<char>, T>
    decreases items.len(),
{
    if items.len() == 0 {
        m
    } else {
        inserted(m, items.drop_last()).insert(items.last().spec_name(), items.last())
    }
}

/// Inserting entries by name: a name gets the last entry of `items` under it, and a
/// name no entry of `items` has keeps what `m` gave it.
#[verifier::spinoff_prover]
#[verifier::rlimit(40)]
pub proof fn lemma_inserted<T: Named>(m: Map<Seq<char>, T>, items: Seq<T>, k: Seq<char>)
    ensures
        (forall|j: int| 0 <= j < items.len() ==> (#[trigger] items[j]).spec_name() != k) ==> (
        inserted(m, items).contains_key(k) == m.contains_key(k) && inserted(m, items)[k] == m[k]),
        forall|i: int|
            0 <= i < items.len() && (#[trigger] items[i]).spec_name() == k && (forall|j: int|
                i < j < items.len() ==> (#[trigger] items[j]).spec_name() != k) ==> inserted(
                m,
                items,
            ).contains_key(k) && inserted(m, items)[k] == items[i],
    decreases items.len(),
{
    if items.len() > 0 {
        let il = items.drop_last();
        lemma_inserted(m, il, k);
        assert forall|i: int| 0 <= i < il.len() implies #[trigger] items[i] == il[i] by {}
        assert(items[items.len() - 1] == items.last());
        assert forall|i: int|
            0 <= i < items.len() && (#[trigger] items[i]).spec_name() == k && (forall|j: int|
                i < j < items.len() ==> (#[trigger] items[j]).spec_name() != k) implies inserted(
            m,
            items,
        ).contains_key(k) && inserted(m, items)[k] == items[i] by {
            if i < items.len() - 1 {
                assert(items[items.len() - 1].spec_name() != k);
                assert(il[i] == items[i]);
                assert forall|j: int| i < j < il.len() implies (#[trigger] il[j]).spec_name() != k by {
                    assert(il[j] == items[j]);
                }
            }
        }
        if forall|j: int| 0 <= j < items.len() ==> (#[trigger] items[j]).spec_name() != k {
            assert forall|j: int| 0 <= j < il.len() implies (#[trigger] il[j]).spec_name() != k by {
                assert(il[j] == items[j]);
            }
        }
    }
}

/// What `by_name` gives a name: the last entry under it, or nothing.
#[verifier::spinoff_prover]
proof fn lemma_by_name<T: Named>(s: Seq<T>, k: Seq<char>)
    ensures
        by_name(s).contains_key(k) <==> exists|i: int| 0 <= i < s.len() && (#[trigger] s[i]).spec_name() == k,
        forall|i: int|
            0 <= i < s.len() && (#[trigger] s[i]).spec_name() == k && (forall|j: int|
                i < j < s.len() ==> (#[trigger] s[j]).spec_name() != k) ==> by_name(s)[k] == s[i],
    decreases s.len(),
{
    if s.len() > 0 {
        let sl = s.drop_last();
        lemma_by_name(sl, k);
        assert forall|i: int| 0 <= i < sl.len() implies #[trigger] s[i] == sl[i] by {}
        if by_name(sl).contains_key(k) {
            let w = choose|i: int| 0 <= i < sl.len() && (#[trigger] sl[i]).spec_name() == k;
            assert(s[w] == sl[w]);
        }
        if s.last().spec_name() == k {
            assert(s[s.len() - 1] == s.last());
        }
        assert forall|i: int|
            0 <= i < s.len() && (#[trigger] s[i]).spec_name() == k && (forall|j: int|
                i < j < s.len() ==> (#[trigger] s[j]).spec_name() != k) implies by_name(s)[k]
            == s[i] by {
            if i < s.len() - 1 {
                assert(s[s.len() - 1].spec_name() != k);
                assert(sl[i] == s[i]);
                assert forall|j: int| i < j < sl.len() implies (#[trigger] sl[j]).spec_name() != k by {
                    assert(sl[j] == s[j]);
                }
            }
        }
    }
}

/// Replacing the one entry under a name replaces what `by_name` gives it.
proof fn lemma_by_name_update<T: Named>(s: Seq<T>, i: int, x: T)
    requires
        names_unique(s),
        0 <= i < s.len(),
        x.spec_name() == s[i].spec_name(),
    ensures
        names_unique(s.update(i, x)),
        by_name(s.update(i, x)) == by_name(s).insert(x.spec_name(), x),
{
    let s2 = s.update(i, x);
    assert forall|a: int, b: int| 0 <= a < b < s2.len() implies (#[trigger] s2[a]).spec_name()
        != (#[trigger] s2[b]).spec_name() by {
        assert(s[a].spec_name() != s[b].spec_name());
    }
    assert forall|k: Seq<char>| #[trigger] by_name(s2).contains_key(k) == by_name(s).insert(
        x.spec_name(),
        x,
    ).contains_key(k) by {
        lemma_by_name(s, k);
        lemma_by_name(s2, k);
        if by_name(s).contains_key(k) {
            let w = choose|j: int| 0 <= j < s.len() && (#[trigger] s[j]).spec_name() == k;
            if w == i {
                assert(s2[i] == x);
            } else {
                assert(s2[w] == s[w]);
            }
        }
        if by_name(s2).contains_key(k) {
            let w = choose|j: int| 0 <= j < s2.len() && (#[trigger] s2[j]).spec_name() == k;
            if w != i {
                assert(s2[w] == s[w]);
            }
        }
    }
    assert forall|k: Seq<char>| #[trigger] by_name(s2).contains_key(k) implies by_name(s2)[k]
        == by_name(s).insert(x.spec_name(), x)[k] by {
        lemma_by_name(s, k);
        lemma_by_name(s2, k);
        let w = choose|j: int| 0 <= j < s2.len() && (#[trigger] s2[j]).spec_name() == k;
        assert forall|j: int| w < j < s2.len() implies (#[trigger] s2[j]).spec_name() != k by {
            assert(s2[w].spec_name() != s2[j].spec_name());
        }
        if w != i {
            assert(s2[w] == s[w]);
            assert forall|j: int| w < j < s.len() implies (#[trigger] s[j]).spec_name() != k by {
                assert(s[w].spec_name() != s[j].spec_name());
            }
        }
    }
    assert(by_name(s2) =~= by_name(s).insert(x.spec_name(), x));
}

/// The entry of `v` named `name`.
fn find_by_name<T: Named>(v: &Vec<T>, name: &String) -> (r: Option<usize>)
    ensures
        r is None <==> forall|j: int| 0 <= j < v@.len() ==> (#[trigger] v@[j]).spec_name() != name@,
        r matches Some(i) ==> i < v@.len() && v@[i as int].spec_name() == name@,
{
    let mut i: usize = 0;
    while i < v.len()
        invariant
            i <= v.len(),
            forall|j: int| 0 <= j < i ==> (#[trigger] v@[j]).spec_name() != name@,
        decreases v.len() - i,
    {
        if v[i].entry_name().eq(name) {
            return Some(i);
        }
        i += 1;
    }
    None
}

/// Adds `item` to `v` under its name, in place of an entry of that name.
fn insert_by_name<T: Named>(v: &mut Vec<T>, item: T)
    requires
        names_unique(old(v)@),
    ensures
        names_unique(final(v)@),
        by_name(final(v)@) == by_name(old(v)@).insert(item.spec_name(), item),
{
    let ghost old_v = v@;
    match find_by_name(v, item.entry_name()) {
        Some(i) => {
            proof {
                lemma_by_name_update(old_v, i as int, item);
            }
            v.set(i, item);
        },
        None => {
            v.push(item);
            proof {
                assert(v@.drop_last() =~= old_v);
                assert forall|a: int, b: int| 0 <= a < b < v@.len() implies (#[trigger] v@[a]).spec_name()
                    != (#[trigger] v@[b]).spec_name() by {
                    if b < old_v.len() {
                        assert(v@[a] == old_v[a] && v@[b] == old_v[b]);
                    } else {
                        assert(v@[a] == old_v[a]);
                    }
                }
            }
        },
    }
}

/// Adds the entries of `items` to `v` by name, in order.
fn insert_all_by_name<T: Named>(v: &mut Vec<T>, items: Vec<T>)
    requires
        names_unique(old(v)@),
    ensures
        names_unique(final(v)@),
        by_name(final(v)@) == inserted(by_name(old(v)@), items@),
{
    let ghost start = by_name(v@);
    let ghost all = items@;
    assert(all.len() == items.len());
    let mut rest = items;
    let mut n: usize = 0;
    while rest.len() > 0
        invariant
            names_unique(v@),
            n + rest@.len() == all.len(),
            all.len() <= usize::MAX,
            rest@ == all.subrange(n as int, all.len() as int),
            by_name(v@) == inserted(start, all.take(n as int)),
        decreases rest@.len(),
    {
        let item = rest.remove(0);
        proof {
            assert(item == all[n as int]);
            assert(all.take(n + 1).drop_last() =~= all.take(n as int));
        }
        insert_by_name(v, item);
        n += 1;
    }
    proof {
        assert(all.take(n as int) =~= all);
    }
}

/// Looks an entry of `v` up by name.
fn get_by_name<'a, T: Named>(v: &'a Vec<T>, name: &str) -> (r: Option<&'a T>)
    requires
        names_unique(v@),
    ensures
        r is Some <==> by_name(v@).contains_key(name@),
        r matches Some(e) ==> *e == by_name(v@)[name@],
{
    let wanted = name.to_owned();
    proof {
        lemma_by_name(v@, name@);
    }
    match find_by_name(v, &wanted) {
        Some(i) => {
            proof {
                assert forall|j: int| i < j < v@.len() implies (#[trigger] v@[j]).spec_name() != name@ by {
                    assert(v@[i as int].spec_name() != v@[j].spec_name());
                }
            }
            Some(&v[i])
        },
        None => None,
    }
}

/// `m` after inserting by name the entries of each list of `lists`, in order.
pub open spec fn gathered<T: Named>(m: Map<Seq<char>, T>, lists: Seq<Seq<T>>) -> Map<Seq<char>, T>
    decreases lists.len(),
{
    if lists.len() == 0 {
        m
    } else {
        inserted(gathered(m, lists.drop_last()), lists.last())
    }
}

/// The providers of `custom`, when given.
pub open spec fn custom_list(custom: Option<Vec<Box<dyn ProvideCssData>>>) -> Seq<Box<dyn ProvideCssData>> {
    match custom {
        Some(v) => v@,
        None => Seq::empty(),
    }
}

/// The properties each provider of `ps` holds.
pub open spec fn held_properties_of(ps: Seq<Box<dyn ProvideCssData>>) -> Seq<Seq<PropertyData>> {
    ps.map_values(|p: Box<dyn ProvideCssData>| p.held_properties())
}

/// The at-rules each provider of `ps` holds.
pub open spec fn held_at_directives_of(ps: Seq<Box<dyn ProvideCssData>>) -> Seq<Seq<AtDirectiveData>> {
    ps.map_values(|p: Box<dyn ProvideCssData>| p.held_at_directives())
}

/// The pseudo-classes each provider of `ps` holds.
pub open spec fn held_pseudo_classes_of(ps: Seq<Box<dyn ProvideCssData>>) -> Seq<Seq<PseudoClassData>> {
    ps.map_values(|p: Box<dyn ProvideCssData>| p.held_pseudo_classes())
}

/// The pseudo-elements each provider of `ps` holds.
pub open spec fn held_pseudo_elements_of(ps: Seq<Box<dyn ProvideCssData>>) -> Seq<Seq<PseudoElementData>> {
    ps.map_values(|p: Box<dyn ProvideCssData>| p.held_pseudo_elements())
}

/// The properties the provider `p` holds, when there is one; none otherwise.
pub open spec fn properties_of_first(p: Option<Box<dyn ProvideCssData>>) -> Seq<PropertyData> {
    match p {
        Some(p) => p.held_properties(),
        None => Seq::empty(),
    }
}

/// The at-rules the provider `p` holds, when there is one; none otherwise.
pub open spec fn at_directives_of_first(p: Option<Box<dyn ProvideCssData>>) -> Seq<AtDirectiveData> {
    match p {
        Some(p) => p.held_at_directives(),
        None => Seq::empty(),
    }
}

/// The pseudo-classes the provider `p` holds, when there is one; none otherwise.
pub open spec fn pseudo_classes_of_first(p: Option<Box<dyn ProvideCssData>>) -> Seq<PseudoClassData> {
    match p {
        Some(p) => p.held_pseudo_classes(),
        None => Seq::empty(),
    }
}

/// The pseudo-elements the provider `p` holds, when there is one; none otherwise.
pub open spec fn pseudo_elements_of_first(p: Option<Box<dyn ProvideCssData>>) -> Seq<PseudoElementData> {
    match p {
        Some(p) => p.held_pseudo_elements(),
        None => Seq::empty(),
    }
}

/// The CSS data of the server: properties, at-rules, pseudo-classes and pseudo-elements
/// by name, gathered from the providers in order, a later entry replacing an earlier one
/// of the same name.
pub struct CssDataManager {
    data_providers: Vec<Box<dyn ProvideCssData>>,
    property_set: Vec<PropertyData>,
    at_directive_set: Vec<AtDirectiveData>,
    pseudo_class_set: Vec<PseudoClassData>,
    pseudo_element_set: Vec<PseudoElementData>,
}

impl CssDataManager {
    /// No two entries of a kind share a name.
    pub closed spec fn wf(&self) -> bool {
        &&& names_unique(self.property_set@)
        &&& names_unique(self.at_directive_set@)
        &&& names_unique(self.pseudo_class_set@)
        &&& names_unique(self.pseudo_element_set@)
    }

    /// The providers whose data is still to be gathered.
    pub closed spec fn providers(&self) -> Seq<Box<dyn ProvideCssData>> {
        self.data_providers@
    }

    /// The known properties by name.
    pub closed spec fn properties(&self) -> Map<Seq<char>, PropertyData> {
        by_name(self.property_set@)
    }

    /// The known at-rules by name.
    pub closed spec fn at_directives(&self) -> Map<Seq<char>, AtDirectiveData> {
        by_name(self.at_directive_set@)
    }

    /// The known pseudo-classes by name.
    pub closed spec fn pseudo_classes(&self) -> Map<Seq<char>, PseudoClassData> {
        by_name(self.pseudo_class_set@)
    }

    /// The known pseudo-elements by name.
    pub closed spec fn pseudo_elements(&self) -> Map<Seq<char>, PseudoElementData> {
        by_name(self.pseudo_element_set@)
    }

    /// Gathers the data of `default_data_provider` (the data the server ships with, when
    /// it is used) and then of `custom_data_providers`, in order.
    pub fn new(
        default_data_provider: Option<Box<dyn ProvideCssData>>,
        custom_data_providers: Option<Vec<Box<dyn ProvideCssData>>>,
    ) -> (r: Self)
        ensures
            r.wf(),
            r.providers().len() == 0,
            r.properties() == gathered(
                inserted(Map::empty(), properties_of_first(default_data_provider)),
                held_properties_of(custom_list(custom_data_providers)),
            ),
            r.at_directives() == gathered(
                inserted(Map::empty(), at_directives_of_first(default_data_provider)),
                held_at_directives_of(custom_list(custom_data_providers)),
            ),
            r.pseudo_classes() == gathered(
                inserted(Map::empty(), pseudo_classes_of_first(default_data_provider)),
                held_pseudo_classes_of(custom_list(custom_data_providers)),
            ),
            r.pseudo_elements() == gathered(
                inserted(Map::empty(), pseudo_elements_of_first(default_data_provider)),
                held_pseudo_elements_of(custom_list(custom_data_providers)),
            ),
    {
        let ghost d = default_data_provider;
        let mut res = Self::default();
        if let Some(mut p) = default_data_provider {
            assert(d->0 == p);
            res.collect_from(&mut p);
        }
        if let Some(custom) = custom_data_providers {
            res.data_providers = custom;
            res.collect_data();
        } else {
            proof {
                assert(held_properties_of(Seq::empty()) =~= Seq::<Seq<PropertyData>>::empty());
                assert(held_at_directives_of(Seq::empty()) =~= Seq::<Seq<AtDirectiveData>>::empty());
                assert(held_pseudo_classes_of(Seq::empty()) =~= Seq::<Seq<PseudoClassData>>::empty());
                assert(held_pseudo_elements_of(Seq::empty()) =~= Seq::<Seq<PseudoElementData>>::empty());
            }
        }
        res
    }

    /// Takes what `provider` provides.
    fn collect_from(&mut self, provider: &mut Box<dyn ProvideCssData>)
        requires
            old(self).wf(),
        ensures
            final(self).wf(),
            final(self).providers() == old(self).providers(),
            final(self).properties() == inserted(old(self).properties(), old(provider).held_properties()),
            final(self).at_directives() == inserted(old(self).at_directives(), old(provider).held_at_directives()),
            final(self).pseudo_classes() == inserted(
                old(self).pseudo_classes(),
                old(provider).held_pseudo_classes(),
            ),
            final(self).pseudo_elements() == inserted(
                old(self).pseudo_elements(),
                old(provider).held_pseudo_elements(),
            ),
    {
        let properties = provider.provide_properties();
        let at_directives = provider.provide_at_directives();
        let pseudo_classes = provider.provide_pseudo_classes();
        let pseudo_elements = provider.provide_pseudo_elements();
        self.collect_provided(properties, at_directives, pseudo_classes, pseudo_elements);
    }

    /// Takes what each provider provides, in order, and drops the providers.
    fn collect_data(&mut self)
        requires
            old(self).wf(),
        ensures
            final(self).wf(),
            final(self).data_providers@.len() == 0,
            final(self).properties() == gathered(
                old(self).properties(),
                held_properties_of(old(self).data_providers@),
            ),
            final(self).at_directives() == gathered(
                old(self).at_directives(),
                held_at_directives_of(old(self).data_providers@),
            ),
            final(self).pseudo_classes() == gathered(
                old(self).pseudo_classes(),
                held_pseudo_classes_of(old(self).data_providers@),
            ),
            final(self).pseudo_elements() == gathered(
                old(self).pseudo_elements(),
                held_pseudo_elements_of(old(self).data_providers@),
            ),
    {
        let ghost start = *self;
        let ghost all = self.data_providers@;
        let mut providers: Vec<Box<dyn ProvideCssData>> = Vec::new();
        std::mem::swap(&mut providers, &mut self.data_providers);
        assert(providers@ == all);
        assert(all.len() == providers.len());
        let mut n: usize = 0;
        proof {
            assert(all.take(0) =~= Seq::<Box<dyn ProvideCssData>>::empty());
            assert(held_properties_of(all.take(0)) =~= Seq::<Seq<PropertyData>>::empty());
            assert(held_at_directives_of(all.take(0)) =~= Seq::<Seq<AtDirectiveData>>::empty());
            assert(held_pseudo_classes_of(all.take(0)) =~= Seq::<Seq<PseudoClassData>>::empty());
            assert(held_pseudo_elements_of(all.take(0)) =~= Seq::<Seq<PseudoElementData>>::empty());
        }
        while providers.len() > 0
            invariant
                self.wf(),
                self.data_providers@.len() == 0,
                n + providers@.len() == all.len(),
                all.len() <= usize::MAX,
                providers@ == all.subrange(n as int, all.len() as int),
                self.properties() == gathered(start.properties(), held_properties_of(all.take(n as int))),
                self.at_directives() == gathered(start.at_directives(), held_at_directives_of(all.take(n as int))),
                self.pseudo_classes() == gathered(start.pseudo_classes(), held_pseudo_classes_of(all.take(n as int))),
                self.pseudo_elements() == gathered(start.pseudo_elements(), held_pseudo_elements_of(all.take(n as int))),
            decreases providers@.len(),
        {
            let mut provider = providers.remove(0);
            assert(provider == all[n as int]);
            self.collect_from(&mut provider);
            proof {
                let t = all.take(n + 1);
                assert(t.drop_last() =~= all.take(n as int));
                assert(held_properties_of(t).drop_last() =~= held_properties_of(all.take(n as int)));
                assert(held_at_directives_of(t).drop_last() =~= held_at_directives_of(all.take(n as int)));
                assert(held_pseudo_classes_of(t).drop_last() =~= held_pseudo_classes_of(all.take(n as int)));
                assert(held_pseudo_elements_of(t).drop_last() =~= held_pseudo_elements_of(all.take(n as int)));
            }
            n += 1;
        }
        proof {
            assert(all.take(n as int) =~= all);
        }
    }

    /// Adds what one provider provided, each entry in place of a known one of its name.
    pub fn collect_provided(
        &mut self,
        properties: Vec<PropertyData>,
        at_directives: Vec<AtDirectiveData>,
        pseudo_classes: Vec<PseudoClassData>,
        pseudo_elements: Vec<PseudoElementData>,
    )
        requires
            old(self).wf(),
        ensures
            final(self).wf(),
            final(self).providers() == old(self).providers(),
            final(self).properties() == inserted(old(self).properties(), properties@),
            final(self).at_directives() == inserted(old(self).at_directives(), at_directives@),
            final(self).pseudo_classes() == inserted(old(self).pseudo_classes(), pseudo_classes@),
            final(self).pseudo_elements() == inserted(old(self).pseudo_elements(), pseudo_elements@),
    {
        insert_all_by_name(&mut self.property_set, properties);
        insert_all_by_name(&mut self.at_directive_set, at_directives);
        insert_all_by_name(&mut self.pseudo_class_set, pseudo_classes);
        insert_all_by_name(&mut self.pseudo_element_set, pseudo_elements);
    }

    pub fn get_property(&self, name: &str) -> (r: Option<&PropertyData>)
        requires
            self.wf(),
        ensures
            r is Some <==> self.properties().contains_key(name@),
            r matches Some(p) ==> *p == self.properties()[name@],
    {
        get_by_name(&self.property_set, name)
    }

    pub fn get_at_directive(&self, name: &str) -> (r: Option<&AtDirectiveData>)
        requires
            self.wf(),
        ensures
            r is Some <==> self.at_directives().contains_key(name@),
            r matches Some(p) ==> *p == self.at_directives()[name@],
    {
        get_by_name(&self.at_directive_set, name)
    }

    pub fn get_pseudo_class(&self, name: &str) -> (r: Option<&PseudoClassData>)
        requires
            self.wf(),
        ensures
            r is Some <==> self.pseudo_classes().contains_key(name@),
            r matches Some(p) ==> *p == self.pseudo_classes()[name@],
    {
        get_by_name(&self.pseudo_class_set, name)
    }

    pub fn get_pseudo_element(&self, name: &str) -> (r: Option<&PseudoElementData>)
        requires
            self.wf(),
        ensures
            r is Some <==> self.pseudo_elements().contains_key(name@),
            r matches Some(p) ==> *p == self.pseudo_elements()[name@],
    {
        get_by_name(&self.pseudo_element_set, name)
    }

    /// Whether a property of the name, lower-cased, is known.
    pub fn is_known_property(&self, name: &str) -> (r: bool)
        requires
            self.wf(),
        ensures
            r == self.properties().contains_key(lowercase(name@)),
    {
        let name = str_to_lowercase(name);
        self.get_property(name.as_str()).is_some()
    }

    /// Whether a property of the name, lower-cased, is known and standard.
    pub fn is_standard_property(&self, name: &str) -> (r: bool)
        requires
            self.wf(),
        ensures
            r == (self.properties().contains_key(lowercase(name@))
                && self.properties()[lowercase(name@)].status == Some(EntryStatus::Standard)),
    {
        let name = str_to_lowercase(name);
        match self.get_property(name.as_str()) {
            Some(prop) => match prop.status {
                Some(EntryStatus::Standard) => true,
                _ => false,
            },
            None => false,
        }
    }
}

impl Default for CssDataManager {
    /// No providers and no data.
    fn default() -> (r: Self)
        ensures
            r.wf(),
            r.providers().len() == 0,
            r.properties() == Map::<Seq<char>, PropertyData>::empty(),
            r.at_directives() == Map::<Seq<char>, AtDirectiveData>::empty(),
            r.pseudo_classes() == Map::<Seq<char>, PseudoClassData>::empty(),
            r.pseudo_elements() == Map::<Seq<char>, PseudoElementData>::empty(),
    {
        CssDataManager {
            data_providers: Vec::new(),
            property_set: Vec::new(),
            at_directive_set: Vec::new(),
            pseudo_class_set: Vec::new(),
            pseudo_element_set: Vec::new(),
        }
    }
}

} // verus!
