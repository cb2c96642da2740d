//! The object catalog: templates grouped by category, exact lookup by
//! name, and weighted random draws within a category.

use vstd::prelude::*;

use crate::object::{class_eq, ObjectClass};
use crate::rng::rand_below;

verus! {

/// Some category of the list carries the given name.
pub open spec fn has_category(cats: Seq<String>, name: Seq<char>) -> bool {
    exists|i: int| 0 <= i < cats.len() && (#[trigger] cats[i])@ == name
}

/// Some template of the list carries the given name.
pub open spec fn has_class(classes: Seq<ObjectClass>, name: Seq<char>) -> bool {
    exists|i: int| 0 <= i < classes.len() && (#[trigger] classes[i]).name@ == name
}

/// `i` is the first template of the list with the given name.
pub open spec fn first_class_at(classes: Seq<ObjectClass>, name: Seq<char>, i: int) -> bool {
    &&& 0 <= i < classes.len()
    &&& classes[i].name@ == name
    &&& forall|k: int| 0 <= k < i ==> (#[trigger] classes[k]).name@ != name
}

/// The templates of one category, in catalog order.
pub open spec fn of_type(classes: Seq<ObjectClass>, t: Seq<char>) -> Seq<ObjectClass>
    decreases classes.len(),
{
    if classes.len() == 0 {
        Seq::empty()
    } else if classes.last().object_type@ == t {
        of_type(classes.drop_last(), t).push(classes.last())
    } else {
        of_type(classes.drop_last(), t)
    }
}

/// The sum of the templates' selection weights.
pub open spec fn total_weight(classes: Seq<ObjectClass>) -> int
    decreases classes.len(),
{
    if classes.len() == 0 {
        0
    } else {
        total_weight(classes.drop_last()) + classes.last().chance
    }
}

/// The sum of the weights of the first `i` templates.
pub open spec fn cum_weight(classes: Seq<ObjectClass>, i: int) -> int {
    total_weight(classes.take(i))
}

/// The two lists hold pairwise equal templates.
pub open spec fn classes_like(a: Seq<ObjectClass>, b: Seq<ObjectClass>) -> bool {
    a.len() == b.len() && forall|i: int| 0 <= i < a.len() ==> class_eq(#[trigger] a[i], b[i])
}

/// Weights are never negative, so the total only grows with the list.
pub proof fn lemma_total_weight_nonneg(classes: Seq<ObjectClass>)
    ensures
        0 <= total_weight(classes),
    decreases classes.len(),
{
    if classes.len() > 0 {
        lemma_total_weight_nonneg(classes.drop_last());
    }
}

proof fn lemma_total_weight_step(classes: Seq<ObjectClass>, i: int)
    requires
        0 <= i < classes.len(),
    ensures
        cum_weight(classes, i + 1) == cum_weight(classes, i) + classes[i].chance,
{
    assert(classes.take(i + 1).drop_last() =~= classes.take(i));
    assert(classes.take(i + 1).last() == classes[i]);
}

proof fn lemma_cum_weight_le_total(classes: Seq<ObjectClass>, i: int)
    requires
        0 <= i <= classes.len(),
    ensures
        cum_weight(classes, i) <= total_weight(classes),
    decreases classes.len(),
{
    if i == classes.len() {
        assert(classes.take(i) =~= classes);
    } else {
        assert(classes.drop_last().take(i) =~= classes.take(i));
        lemma_cum_weight_le_total(classes.drop_last(), i);
        lemma_total_weight_nonneg(classes.drop_last());
    }
}

/// Pairwise equal template lists have the same total weight.
proof fn lemma_classes_like_total(a: Seq<ObjectClass>, b: Seq<ObjectClass>)
    requires
        classes_like(a, b),
    ensures
        total_weight(a) == total_weight(b),
    decreases a.len(),
{
    if a.len() > 0 {
        assert(classes_like(a.drop_last(), b.drop_last()));
        lemma_classes_like_total(a.drop_last(), b.drop_last());
        assert(class_eq(a.last(), b.last()));
    }
}

/// The catalog: templates in insertion order, grouped by their
/// `object_type`, under a fixed list of category names.
#[derive(Debug)]
pub struct ObjectTypes {
    object_types: Vec<String>,
    classes: Vec<ObjectClass>,
}

impl ObjectTypes {
    /// The registered category names.
    pub closed spec fn categories(&self) -> Seq<String> {
        self.object_types@
    }

    /// The templates, in the order they were added.
    pub closed spec fn classes(&self) -> Seq<ObjectClass> {
        self.classes@
    }

    /// An empty catalog under the given category names.
    pub fn new(object_types: Vec<String>) -> (r: ObjectTypes)
        ensures
            r.categories() == object_types@,
            r.classes() == Seq::<ObjectClass>::empty(),
    {
        ObjectTypes { object_types, classes: Vec::new() }
    }

    /// Adds a template under its category, which must be registered and
    /// match the template's own kind.
    pub fn add_class(&mut self, object_type: String, object_class: ObjectClass)
        requires
            has_category(old(self).categories(), object_type@),
            object_type@ == object_class.object_type@,
        ensures
            final(self).categories() == old(self).categories(),
            final(self).classes() == old(self).classes().push(object_class),
    {
        self.classes.push(object_class);
    }

    /// Exact lookup by template name; the name must exist (a missing
    /// name is a broken content file, which the caller rules out).
    pub fn get_class(&self, class_name: &str) -> (r: ObjectClass)
        requires
            has_class(self.classes(), class_name@),
        ensures
            exists|i: int|
                #[trigger] first_class_at(self.classes(), class_name@, i) && class_eq(
                    r,
                    self.classes()[i],
                ),
    {
        let key: String = class_name.to_owned();
        let mut i: usize = 0;
        while i < self.classes.len()
            invariant
                0 <= i <= self.classes@.len(),
                key@ == class_name@,
                has_class(self.classes@, class_name@),
                forall|k: int| 0 <= k < i as int ==> (#[trigger] self.classes@[k]).name@ != key@,
            decreases self.classes@.len() - i,
        {
            if self.classes[i].name == key {
                let found = self.classes[i].clone_class();
                proof {
                    assert(first_class_at(self.classes(), class_name@, i as int));
                    assert(class_eq(found, self.classes()[i as int]));
                }
                return found;
            }
            i += 1;
        }
        proof {
            assert(false);
        }
        self.classes[0].clone_class()
    }

    /// Whether the catalog holds a template of the given name.
    pub fn contains_class(&self, class_name: &str) -> (r: bool)
        ensures
            r == has_class(self.classes(), class_name@),
    {
        let key: String = class_name.to_owned();
        let mut i: usize = 0;
        while i < self.classes.len()
            invariant
                0 <= i <= self.classes@.len(),
                key@ == class_name@,
                forall|k: int| 0 <= k < i as int ==> (#[trigger] self.classes@[k]).name@ != key@,
            decreases self.classes@.len() - i,
        {
            if self.classes[i].name == key {
                proof {
                    assert((#[trigger] self.classes()[i as int]).name@ == class_name@);
                }
                return true;
            }
            i += 1;
        }
        false
    }

    /// The total selection weight of one category, or nothing when the
    /// sum exceeds what the draw arithmetic can hold.
    pub fn category_weight(&self, category: &str) -> (r: Option<u64>)
        ensures
            match r {
                Option::Some(w) => w as int == total_weight(
                    of_type(self.classes(), category@),
                ),
                Option::None => total_weight(of_type(self.classes(), category@)) > u64::MAX,
            },
    {
        let key: String = category.to_owned();
        let mut total: u64 = 0;
        let mut i: usize = 0;
        while i < self.classes.len()
            invariant
                0 <= i <= self.classes@.len(),
                key@ == category@,
                total as int == total_weight(of_type(self.classes@.take(i as int), category@)),
            decreases self.classes@.len() - i,
        {
            proof {
                assert(self.classes@.take(i + 1).drop_last() =~= self.classes@.take(i as int));
                assert(self.classes@.take(i + 1).last() == self.classes@[i as int]);
                if self.classes@[i as int].object_type@ == category@ {
                    let x = of_type(self.classes@.take(i as int), category@);
                    let c0 = self.classes@[i as int];
                    assert(of_type(self.classes@.take(i + 1), category@) == x.push(c0));
                    assert(x.push(c0).drop_last() =~= x);
                    assert(x.push(c0).last() == c0);
                }
            }
            let c = &self.classes[i];
            if c.object_type == key {
                if total > u64::MAX - c.chance as u64 {
                    proof {
                        lemma_of_type_prefix_weight(self.classes@, i as int + 1, category@);
                    }
                    return Option::None;
                }
                total = total + c.chance as u64;
            }
            i += 1;
        }
        proof {
            assert(self.classes@.take(self.classes@.len() as int) =~= self.classes@);
        }
        Option::Some(total)
    }

    /// A weighted sampler over one category's templates, or nothing if
    /// the category has no templates to draw (none at all, or only
    /// templates of weight zero).
    pub fn create_randomizer(&self, category: &str) -> (r: Option<ObjectRandomizer>)
        requires
            total_weight(of_type(self.classes(), category@)) <= u64::MAX,
        ensures
            r is Some <==> total_weight(of_type(self.classes(), category@)) > 0,
            match r {
                Option::Some(rz) => rz.wf() && classes_like(
                    rz.classes(),
                    of_type(self.classes(), category@),
                ),
                Option::None => true,
            },
    {
        let key: String = category.to_owned();
        let mut filtered: Vec<ObjectClass> = Vec::new();
        let mut total: u64 = 0;
        let mut i: usize = 0;
        while i < self.classes.len()
            invariant
                0 <= i <= self.classes@.len(),
                key@ == category@,
                classes_like(filtered@, of_type(self.classes@.take(i as int), category@)),
                total as int == total_weight(of_type(self.classes@.take(i as int), category@)),
                total_weight(of_type(self.classes@, category@)) <= u64::MAX,
            decreases self.classes@.len() - i,
        {
            proof {
                assert(self.classes@.take(i + 1).drop_last() =~= self.classes@.take(i as int));
                assert(self.classes@.take(i + 1).last() == self.classes@[i as int]);
                lemma_of_type_prefix_weight(self.classes@, i as int + 1, category@);
                if self.classes@[i as int].object_type@ == category@ {
                    let x = of_type(self.classes@.take(i as int), category@);
                    let c0 = self.classes@[i as int];
                    assert(of_type(self.classes@.take(i + 1), category@) == x.push(c0));
                    assert(x.push(c0).drop_last() =~= x);
                    assert(x.push(c0).last() == c0);
                    assert(total_weight(x.push(c0)) == total_weight(x) + c0.chance);
                }
            }
            let c = &self.classes[i];
            if c.object_type == key {
                filtered.push(c.clone_class());
                total = total + c.chance as u64;
            }
            i += 1;
        }
        proof {
            assert(self.classes@.take(self.classes@.len() as int) =~= self.classes@);
        }
        if total > 0 {
            proof {
                lemma_classes_like_total(
                    filtered@,
                    of_type(self.classes@, category@),
                );
            }
            Option::Some(ObjectRandomizer { classes: filtered })
        } else {
            proof {
                lemma_classes_like_total(
                    filtered@,
                    of_type(self.classes@, category@),
                );
            }
            Option::None
        }
    }
}

/// The total weight of a category within the first `i` templates never
/// exceeds the category's total over the whole list.
proof fn lemma_of_type_prefix_weight(classes: Seq<ObjectClass>, i: int, t: Seq<char>)
    requires
        0 <= i <= classes.len(),
    ensures
        total_weight(of_type(classes.take(i), t)) <= total_weight(of_type(classes, t)),
    decreases classes.len(),
{
    if i == classes.len() {
        assert(classes.take(i) =~= classes);
    } else {
        assert(classes.drop_last().take(i) =~= classes.take(i));
        lemma_of_type_prefix_weight(classes.drop_last(), i, t);
        if classes.last().object_type@ == t {
            let x = of_type(classes.drop_last(), t);
            assert(x.push(classes.last()).drop_last() =~= x);
            assert(x.push(classes.last()).last() == classes.last());
            assert(total_weight(of_type(classes, t)) == total_weight(x) + classes.last().chance);
        }
    }
}

/// A reusable weighted sampler: each draw picks a template with
/// probability proportional to its weight and hands back a fresh copy.
pub struct ObjectRandomizer {
    classes: Vec<ObjectClass>,
}

impl ObjectRandomizer {
    /// The templates the sampler draws from.
    pub closed spec fn classes(&self) -> Seq<ObjectClass> {
        self.classes@
    }

    /// The sampler has something to draw: a positive total weight that
    /// the draw arithmetic can hold.
    pub open spec fn wf(&self) -> bool {
        0 < total_weight(self.classes()) <= u64::MAX
    }

    /// One weighted draw: a copy of some template of positive weight; a
    /// template of weight zero is never drawn.
    pub fn get_class(&self) -> (r: ObjectClass)
        requires
            self.wf(),
        ensures
            exists|i: int|
                0 <= i < self.classes().len() && class_eq(r, #[trigger] self.classes()[i])
                    && self.classes()[i].chance > 0,
    {
        let mut total: u64 = 0;
        let mut i: usize = 0;
        while i < self.classes.len()
            invariant
                0 <= i <= self.classes@.len(),
                total as int == cum_weight(self.classes@, i as int),
                total_weight(self.classes@) <= u64::MAX,
            decreases self.classes@.len() - i,
        {
            proof {
                lemma_total_weight_step(self.classes@, i as int);
                lemma_cum_weight_le_total(self.classes@, i as int + 1);
            }
            total = total + self.classes[i].chance as u64;
            i += 1;
        }
        proof {
            assert(self.classes@.take(self.classes@.len() as int) =~= self.classes@);
        }
        let roll = rand_below(total);
        let ix = select_weighted(&self.classes, roll);
        proof {
            lemma_total_weight_step(self.classes@, ix as int);
        }
        self.classes[ix].clone_class()
    }
}

/// The index the weighted draw selects for roll `r`: the unique `ix`
/// whose cumulative weight interval contains `r`. A template of weight
/// zero owns an empty interval and is never selected.
pub fn select_weighted(classes: &Vec<ObjectClass>, r: u64) -> (ix: usize)
    requires
        r < total_weight(classes@),
        total_weight(classes@) <= u64::MAX,
    ensures
        ix < classes@.len(),
        cum_weight(classes@, ix as int) <= r < cum_weight(classes@, ix as int + 1),
        classes@[ix as int].chance > 0,
{
    let mut acc: u64 = 0;
    let mut i: usize = 0;
    while i < classes.len()
        invariant
            0 <= i <= classes@.len(),
            acc as int == cum_weight(classes@, i as int),
            r as int >= cum_weight(classes@, i as int),
            r < total_weight(classes@) <= u64::MAX,
        decreases classes@.len() - i,
    {
        proof {
            lemma_total_weight_step(classes@, i as int);
            lemma_cum_weight_le_total(classes@, i as int + 1);
        }
        let c = classes[i].chance as u64;
        if r < acc + c {
            return i;
        }
        acc = acc + c;
        i += 1;
    }
    proof {
        assert(classes@.take(classes@.len() as int) =~= classes@);
        assert(false);
    }
    0
}

} // verus!
