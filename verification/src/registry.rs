//! Class registry: one class model per distinct id of the input, built by
//! grouping observations, fitted atomically, and queried by id.

use vstd::prelude::*;
use crate::model::{Class, FittedParams, ModelError, Point, params_valid};

verus! {

/// One grouped observation: a class id and a point.
#[derive(Clone, Copy, Debug, PartialEq, Eq, Structural)]
pub struct Observation {
    pub id: i32,
    pub point: Point,
}

/// The distinct ids of the observations, in first-occurrence order.
pub open spec fn distinct_ids(obs: Seq<Observation>) -> Seq<i32>
    decreases obs.len(),
{
    if obs.len() == 0 {
        Seq::empty()
    } else {
        let rest = distinct_ids(obs.drop_last());
        if rest.contains(obs.last().id) {
            rest
        } else {
            rest.push(obs.last().id)
        }
    }
}

/// The points observed for `id`, in input order.
pub open spec fn points_of(obs: Seq<Observation>, id: i32) -> Seq<Point> {
    obs.filter(|o: Observation| o.id == id).map_values(|o: Observation| o.point)
}

/// Filtering one more element keeps the result or appends that element.
proof fn lemma_filter_push<A>(s: Seq<A>, p: spec_fn(A) -> bool, x: A)
    ensures
        s.push(x).filter(p) == (if p(x) {
            s.filter(p).push(x)
        } else {
            s.filter(p)
        }),
{
    reveal_with_fuel(Seq::filter, 2);
    assert(s.push(x).drop_last() =~= s);
    assert(s.push(x).last() == x);
}

/// A filter that holds of no element yields the empty sequence.
proof fn lemma_filter_none<A>(s: Seq<A>, p: spec_fn(A) -> bool)
    requires
        forall|m: int| 0 <= m < s.len() ==> !p(#[trigger] s[m]),
    ensures
        s.filter(p).len() == 0,
    decreases s.len(),
{
    reveal_with_fuel(Seq::filter, 2);
    if s.len() > 0 {
        assert(forall|m: int|
            0 <= m < s.drop_last().len() ==> !p(#[trigger] s.drop_last()[m]));
        lemma_filter_none(s.drop_last(), p);
    }
}

/// The set of a sequence extended by one element.
proof fn lemma_push_to_set<A>(s: Seq<A>, x: A)
    ensures
        s.push(x).to_set() =~= s.to_set().insert(x),
{
    assert forall|y: A| s.push(x).to_set().contains(y) implies s.to_set().insert(x).contains(
        y,
    ) by {
        let idx = choose|idx: int| 0 <= idx < s.push(x).len() && s.push(x)[idx] == y;
        if idx < s.len() {
            assert(s[idx] == y);
        }
    };
    assert forall|y: A| s.to_set().insert(x).contains(y) implies s.push(x).to_set().contains(
        y,
    ) by {
        if y == x {
            assert(s.push(x)[s.len() as int] == y);
        } else {
            let idx = choose|idx: int| 0 <= idx < s.len() && s[idx] == y;
            assert(s.push(x)[idx] == y);
        }
    };
}

/// Each distinct id appears exactly once, and together they are exactly
/// the ids that occur in the observations: a registry built from the
/// observations holds as many classes as the input has distinct ids.
pub proof fn lemma_one_class_per_distinct_id(obs: Seq<Observation>)
    ensures
        distinct_ids(obs).no_duplicates(),
        distinct_ids(obs).to_set() =~= obs.map_values(|o: Observation| o.id).to_set(),
        distinct_ids(obs).len() == obs.map_values(|o: Observation| o.id).to_set().len(),
    decreases obs.len(),
{
    let f = |o: Observation| o.id;
    if obs.len() == 0 {
        assert(obs.map_values(f) =~= Seq::<i32>::empty());
        assert(distinct_ids(obs).to_set() =~= obs.map_values(f).to_set());
    } else {
        let u = obs.drop_last();
        let e = obs.last();
        lemma_one_class_per_distinct_id(u);
        assert(obs.map_values(f) =~= u.map_values(f).push(e.id));
        lemma_push_to_set(u.map_values(f), e.id);
        let d = distinct_ids(u);
        if d.contains(e.id) {
            // the id set gains nothing new
            assert(d.to_set().contains(e.id));
            assert(d.to_set() =~= d.to_set().insert(e.id));
        } else {
            lemma_push_to_set(d, e.id);
            // a fresh id keeps the sequence duplicate-free
            assert forall|a: int, b: int|
                0 <= a < b < d.push(e.id).len() implies d.push(e.id)[a] != d.push(
                e.id,
            )[b] by {
                if b == d.len() {
                    assert(!d.contains(e.id));
                    if d[a] == e.id {
                        assert(d.contains(e.id));
                    }
                }
            };
        }
    }
    distinct_ids(obs).unique_seq_to_set();
}

/// Index of the class with the given id, if any.
fn find_class(classes: &Vec<Class>, id: i32) -> (r: Option<usize>)
    ensures
        match r {
            Some(j) => j < classes@.len() && (#[trigger] classes@[j as int]).id_spec() == id,
            None => forall|m: int|
                0 <= m < classes@.len() ==> (#[trigger] classes@[m]).id_spec() != id,
        },
{
    let mut j: usize = 0;
    while j < classes.len()
        invariant
            j <= classes@.len(),
            forall|m: int| 0 <= m < j ==> (#[trigger] classes@[m]).id_spec() != id,
        decreases classes@.len() - j,
    {
        if classes[j].id() == id {
            return Some(j);
        }
        j = j + 1;
    }
    None
}

/// The registry: one class model per distinct id of the input.
#[derive(Debug)]
pub struct ClassData {
    classes: Vec<Class>,
}

impl ClassData {
    /// The class models, in first-occurrence order of their ids.
    pub closed spec fn classes_spec(&self) -> Seq<Class> {
        self.classes@
    }

    /// The class ids, in registry order.
    pub open spec fn ids(&self) -> Seq<i32> {
        self.classes_spec().map_values(|c: Class| c.id_spec())
    }

    /// Each id names at most one class.
    pub open spec fn wf(&self) -> bool {
        forall|a: int, b: int|
            0 <= a < b < self.classes_spec().len() ==> (#[trigger] self.classes_spec()[a]).id_spec()
                != (#[trigger] self.classes_spec()[b]).id_spec()
    }

    /// Number of classes.
    pub fn len(&self) -> (r: usize)
        ensures
            r == self.classes_spec().len(),
    {
        self.classes.len()
    }

    /// The classes, in registry order.
    pub fn classes(&self) -> (r: &Vec<Class>)
        ensures
            r@ == self.classes_spec(),
    {
        &self.classes
    }

    /// Groups the observations into one not-yet-fitted class per distinct
    /// id: the classes stand in first-occurrence order of their ids, and
    /// each holds exactly the points observed for its id, in input order.
    pub fn from_observations(obs: &Vec<Observation>) -> (d: ClassData)
        ensures
            d.wf(),
            d.ids() == distinct_ids(obs@),
            forall|k: int|
                0 <= k < d.classes_spec().len() ==> (#[trigger] d.classes_spec()[k]).points_spec()
                    == points_of(obs@, d.classes_spec()[k].id_spec()),
            forall|k: int|
                0 <= k < d.classes_spec().len() ==> (#[trigger] d.classes_spec()[k]).fitted_spec()
                    is None,
    {
        let mut classes: Vec<Class> = Vec::new();
        let mut i: usize = 0;
        proof {
            assert(obs@.take(0) =~= Seq::<Observation>::empty());
            assert(classes@.map_values(|c: Class| c.id_spec()) =~= Seq::<i32>::empty());
        }
        while i < obs.len()
            invariant
                i <= obs@.len(),
                forall|a: int, b: int|
                    0 <= a < b < classes@.len() ==> (#[trigger] classes@[a]).id_spec() != (
                    #[trigger] classes@[b]).id_spec(),
                classes@.map_values(|c: Class| c.id_spec()) == distinct_ids(obs@.take(i as int)),
                forall|k: int|
                    0 <= k < classes@.len() ==> (#[trigger] classes@[k]).points_spec() == points_of(
                        obs@.take(i as int),
                        classes@[k].id_spec(),
                    ),
                forall|k: int|
                    0 <= k < classes@.len() ==> (#[trigger] classes@[k]).fitted_spec() is None,
            decreases obs@.len() - i,
        {
            let o = obs[i];
            let ghost prev = classes@;
            let ghost taken = obs@.take(i as int);
            proof {
                assert(obs@.take(i as int + 1) =~= taken.push(o));
                assert(obs@.take(i as int + 1).drop_last() =~= taken);
            }
            match find_class(&classes, o.id) {
                Some(j) => {
                    let mut c = classes.remove(j);
                    c.push_point(o.point);
                    classes.insert(j, c);
                    proof {
                        assert(classes@ =~= prev.update(j as int, c));
                        assert(classes@.map_values(|c: Class| c.id_spec()) =~= prev.map_values(
                            |c: Class| c.id_spec(),
                        ));
                        assert(prev.map_values(|c: Class| c.id_spec())[j as int] == o.id);
                        assert(distinct_ids(taken).contains(o.id));
                        assert(distinct_ids(taken.push(o)) == distinct_ids(taken));
                        assert forall|k: int| 0 <= k < classes@.len() implies (
                        #[trigger] classes@[k]).points_spec() == points_of(
                            taken.push(o),
                            classes@[k].id_spec(),
                        ) by {
                            let cid = classes@[k].id_spec();
                            lemma_filter_push(taken, |q: Observation| q.id == cid, o);
                            if k == j as int {
                                assert(classes@[k].points_spec() == prev[k].points_spec().push(
                                    o.point,
                                ));
                                assert(points_of(taken.push(o), cid) =~= points_of(
                                    taken,
                                    cid,
                                ).push(o.point));
                            } else {
                                assert(cid != o.id);
                                assert(points_of(taken.push(o), cid) =~= points_of(taken, cid));
                            }
                        };
                    }
                },
                None => {
                    let mut pts: Vec<Point> = Vec::new();
                    pts.push(o.point);
                    let c = Class::new(o.id, pts);
                    classes.push(c);
                    proof {
                        let idf = |c: Class| c.id_spec();
                        assert(classes@ =~= prev.push(c));
                        assert(classes@.map_values(idf) =~= prev.map_values(idf).push(o.id));
                        assert(!distinct_ids(taken).contains(o.id)) by {
                            if distinct_ids(taken).contains(o.id) {
                                let m = choose|m: int|
                                    0 <= m < distinct_ids(taken).len() && distinct_ids(taken)[m]
                                        == o.id;
                                assert(prev.map_values(idf)[m] == o.id);
                                assert(prev[m].id_spec() == o.id);
                            }
                        };
                        assert(distinct_ids(taken.push(o)) == distinct_ids(taken).push(o.id));
                        assert forall|k: int| 0 <= k < classes@.len() implies (
                        #[trigger] classes@[k]).points_spec() == points_of(
                            taken.push(o),
                            classes@[k].id_spec(),
                        ) by {
                            let cid = classes@[k].id_spec();
                            lemma_filter_push(taken, |q: Observation| q.id == cid, o);
                            if k == prev.len() {
                                let p = |q: Observation| q.id == cid;
                                assert forall|m: int| 0 <= m < taken.len() implies !p(
                                    #[trigger] taken[m],
                                ) by {
                                    if taken[m].id == cid {
                                        lemma_one_class_per_distinct_id(taken);
                                        assert(taken.map_values(|q: Observation| q.id)[m] == cid);
                                        assert(taken.map_values(|q: Observation| q.id).to_set()
                                            .contains(cid));
                                        assert(distinct_ids(taken).to_set().contains(cid));
                                        assert(distinct_ids(taken).contains(cid));
                                        let mm = choose|mm: int|
                                            0 <= mm < distinct_ids(taken).len() && distinct_ids(
                                                taken,
                                            )[mm] == cid;
                                        assert(prev.map_values(|c: Class| c.id_spec())[mm] == cid);
                                        assert(prev[mm].id_spec() == cid);
                                    }
                                };
                                lemma_filter_none(taken, p);
                                assert(points_of(taken, cid) =~= Seq::<Point>::empty());
                                assert(classes@[k].points_spec() =~= Seq::<Point>::empty().push(
                                    o.point,
                                ));
                                assert(points_of(taken.push(o), cid) =~= points_of(
                                    taken,
                                    cid,
                                ).push(o.point));
                            } else {
                                assert(cid != o.id);
                                assert(points_of(taken.push(o), cid) =~= points_of(taken, cid));
                            }
                        };
                    }
                },
            }
            i = i + 1;
        }
        proof {
            assert(obs@.take(i as int) =~= obs@);
        }
        ClassData { classes }
    }

    /// The class with the given id, or `NotFound` when that id was never
    /// observed.
    pub fn lookup(&self, id: i32) -> (r: Result<&Class, ModelError>)
        ensures
            match r {
                Ok(c) => exists|k: int|
                    0 <= k < self.classes_spec().len() && *c == self.classes_spec()[k] && (
                    #[trigger] self.classes_spec()[k]).id_spec() == id,
                Err(e) => e == ModelError::NotFound && (forall|k: int|
                    0 <= k < self.classes_spec().len() ==> (
                    #[trigger] self.classes_spec()[k]).id_spec() != id),
            },
    {
        match find_class(&self.classes, id) {
            Some(j) => {
                let r = &self.classes[j];
                proof {
                    let jj = j as int;
                    assert(0 <= jj < self.classes_spec().len() && *r == self.classes_spec()[jj]
                        && self.classes_spec()[jj].id_spec() == id);
                }
                Ok(r)
            },
            None => Err(ModelError::NotFound),
        }
    }

    /// Validates and installs the distribution parameters of every class,
    /// one parameter set per class in registry order, each computed by the
    /// caller from that class's points.  The build is atomic: it succeeds
    /// exactly when every class has at least two points and valid
    /// parameters on both axes; otherwise it fails with `Distribution` and
    /// the registry is to be discarded: the classes before the first
    /// failing one keep their given parameters, the rest are unchanged.
    /// Ids and points never change.
    pub fn generate_distributions(&mut self, all_params: &Vec<FittedParams>) -> (r: Result<
        (),
        ModelError,
    >)
        requires
            all_params@.len() == old(self).classes_spec().len(),
        ensures
            r is Ok <==> (forall|k: int|
                0 <= k < old(self).classes_spec().len() ==> (
                #[trigger] old(self).classes_spec()[k]).points_spec().len() >= 2 && params_valid(
                    all_params@[k],
                )),
            r is Ok ==> forall|k: int|
                0 <= k < old(self).classes_spec().len() ==> (
                #[trigger] final(self).classes_spec()[k]).fitted_spec() == Some(all_params@[k]),
            r is Err ==> r == Err::<(), ModelError>(ModelError::Distribution),
            r is Err ==> exists|j: int|
                0 <= j < old(self).classes_spec().len() && !((
                #[trigger] old(self).classes_spec()[j]).points_spec().len() >= 2 && params_valid(
                    all_params@[j],
                )) && (forall|m: int|
                    0 <= m < j ==> (#[trigger] old(self).classes_spec()[m]).points_spec().len() >= 2
                        && params_valid(all_params@[m])
                        && final(self).classes_spec()[m].fitted_spec() == Some(all_params@[m]))
                    && (forall|m: int|
                    j <= m < old(self).classes_spec().len()
                        ==> #[trigger] final(self).classes_spec()[m]
                        == old(self).classes_spec()[m]),
            final(self).classes_spec().len() == old(self).classes_spec().len(),
            forall|k: int|
                0 <= k < old(self).classes_spec().len() ==> (
                #[trigger] final(self).classes_spec()[k]).id_spec() == old(
                    self,
                ).classes_spec()[k].id_spec() && final(self).classes_spec()[k].points_spec() == old(
                    self,
                ).classes_spec()[k].points_spec(),
    {
        let n = self.classes.len();
        let mut k: usize = 0;
        while k < n
            invariant
                k <= n,
                n == self.classes@.len(),
                n == old(self).classes_spec().len(),
                all_params@.len() == n,
                forall|m: int|
                    k <= m < n ==> #[trigger] self.classes@[m] == old(self).classes_spec()[m],
                forall|m: int|
                    0 <= m < k ==> (#[trigger] old(self).classes_spec()[m]).points_spec().len() >= 2
                        && params_valid(all_params@[m]),
                forall|m: int|
                    0 <= m < k ==> (#[trigger] self.classes@[m]).fitted_spec() == Some(
                        all_params@[m],
                    ),
                forall|m: int|
                    0 <= m < n ==> (#[trigger] self.classes@[m]).id_spec() == old(
                        self,
                    ).classes_spec()[m].id_spec() && self.classes@[m].points_spec() == old(
                        self,
                    ).classes_spec()[m].points_spec(),
            decreases n - k,
        {
            let ghost prev = self.classes@;
            let mut c = self.classes.remove(k);
            let ghost c0 = c;
            let res = c.generate_distribution(all_params[k]);
            self.classes.insert(k, c);
            proof {
                assert(c0 == prev[k as int]);
                assert(prev[k as int] == old(self).classes_spec()[k as int]);
                assert(self.classes@ =~= prev.update(k as int, c));
                if res is Ok {
                    assert(old(self).classes_spec()[k as int].points_spec().len() >= 2);
                    assert(params_valid(all_params@[k as int]));
                    assert(self.classes@[k as int].fitted_spec() == Some(all_params@[k as int]));
                }
            }
            if let Err(e) = res {
                proof {
                    // the class was unchanged, so the registry equals its
                    // entry state and index k witnesses the failure
                    assert(self.classes@ =~= prev);
                    let j = k as int;
                    assert(0 <= j < old(self).classes_spec().len() && !((old(
                        self,
                    ).classes_spec()[j]).points_spec().len() >= 2 && params_valid(all_params@[j]))
                        && (forall|m: int|
                        0 <= m < j ==> (#[trigger] old(self).classes_spec()[m]).points_spec().len()
                            >= 2 && params_valid(all_params@[m])
                            && self.classes@[m].fitted_spec() == Some(all_params@[m])) && (
                    forall|m: int|
                        j <= m < old(self).classes_spec().len() ==> #[trigger] self.classes@[m]
                            == old(self).classes_spec()[m]));
                }
                return Err(e);
            }
            k = k + 1;
        }
        Ok(())
    }
}

} // verus!
