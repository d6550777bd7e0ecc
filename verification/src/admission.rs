//! The composite admission protocol: one polymorphic surface that accepts a
//! single descriptor, a plugin group, or a tuple of such, and folds the
//! depth-first, left-to-right flattening into the application under one of
//! the two duplicate policies.

use vstd::prelude::*;
use crate::app::App;
use crate::app::admit_one;
use crate::app::admit_seq;
use crate::app::inv;
use crate::app::outcome_matches;
use crate::errors::AppError;
use crate::group::PluginGroup;
use crate::group::flat_group;
use crate::plugin::DescModel;
use crate::plugin::PluginDescriptor;
use crate::registry::AdmissionPolicy;

verus! {

/// Distinguishes the single-descriptor admission shape.
pub struct PluginMarker;

/// Distinguishes the group admission shape.
pub struct PluginGroupMarker;

/// Distinguishes the tuple admission shape.
pub struct PluginsTupleMarker;

/// Admitting one descriptor is the one-element fold.
pub proof fn lemma_admit_seq_single(m: crate::app::AppModel, d: DescModel, policy: AdmissionPolicy)
    ensures
        admit_seq(m, seq![d], policy) == ({
            let (m1, o) = admit_one(m, d, policy);
            if o is Refused {
                (m1, Some(d.name))
            } else {
                (m1, None::<Seq<char>>)
            }
        }),
{
    let ds = seq![d];
    assert(ds.len() == 1);
    assert(ds[0] == d);
    assert(ds.skip(1) =~= Seq::<DescModel>::empty());
    let (m1, o) = admit_one(m, d, policy);
    if o is Refused {
        assert(admit_seq(m, ds, policy) == (m1, Some(d.name)));
    } else {
        assert(admit_seq(m1, ds.skip(1), policy) == (m1, None::<Seq<char>>));
        assert(admit_seq(m, ds, policy) == (m1, None::<Seq<char>>));
    }
}

/// The fold over a concatenation: run the first part; if it was refused
/// nothing further is attempted, otherwise the second part continues from
/// where the first left the application.
pub proof fn lemma_admit_seq_concat(
    m: crate::app::AppModel,
    s1: Seq<DescModel>,
    s2: Seq<DescModel>,
    policy: AdmissionPolicy,
)
    ensures
        admit_seq(m, s1 + s2, policy) == ({
            let (m1, e1) = admit_seq(m, s1, policy);
            if e1 is Some {
                (m1, e1)
            } else {
                admit_seq(m1, s2, policy)
            }
        }),
    decreases s1.len(),
{
    if s1.len() == 0 {
        assert(s1 + s2 =~= s2);
    } else {
        assert((s1 + s2)[0] == s1[0]);
        assert((s1 + s2).len() > 0);
        assert((s1 + s2).skip(1) =~= s1.skip(1) + s2);
        let (ma, oa) = admit_one(m, s1[0], policy);
        if oa is Refused {
        } else {
            lemma_admit_seq_concat(ma, s1.skip(1), s2, policy);
        }
    }
}

/// Admits each descriptor in order under the given policy, as `admit_seq`
/// says: a refusal aborts the fold, surfacing the failing name, and the
/// already-admitted prefix remains registered.
pub fn register_all(app: &mut App, plugins: Vec<PluginDescriptor>, policy: AdmissionPolicy) -> (r:
    Result<(), AppError>)
    requires
        old(app)@.state is Adding,
        inv(old(app)@),
    ensures
        inv(final(app)@),
        final(app)@.state == old(app)@.state,
        final(app)@ == admit_seq(
            old(app)@,
            plugins@.map_values(|p: PluginDescriptor| p@),
            policy,
        ).0,
        outcome_matches(
            r,
            admit_seq(old(app)@, plugins@.map_values(|p: PluginDescriptor| p@), policy).1,
        ),
{
    let ghost m0 = old(app)@;
    let ghost ds = plugins@.map_values(|p: PluginDescriptor| p@);
    let n = plugins.len();
    let mut i: usize = 0;
    proof {
        assert(ds.take(0) =~= Seq::<DescModel>::empty());
    }
    while i < n
        invariant
            m0 == old(app)@,
            n == ds.len(),
            i <= n,
            plugins@.map_values(|p: PluginDescriptor| p@) == ds,
            n == plugins@.len(),
            app@.state is Adding,
            app@.state == m0.state,
            inv(app@),
            admit_seq(m0, ds.take(i as int), policy) == (app@, None::<Seq<char>>),
        decreases n - i,
    {
        let ghost mid = app@;
        proof {
            assert(ds.take(i + 1 as int) =~= ds.take(i as int) + seq![ds[i as int]]);
        }
        let d = plugins[i].duplicate();
        proof {
            assert(ds[i as int] == plugins@[i as int]@);
            assert(d@ == ds[i as int]);
        }
        let r = app.register(d, policy);
        proof {
            lemma_admit_seq_concat(m0, ds.take(i as int), seq![ds[i as int]], policy);
            lemma_admit_seq_single(mid, ds[i as int], policy);
        }
        match r {
            Ok(_) => {},
            Err(e) => {
                proof {
                    assert(ds =~= ds.take(i + 1 as int) + ds.skip(i + 1));
                    lemma_admit_seq_concat(m0, ds.take(i + 1 as int), ds.skip(i + 1), policy);
                }
                return Err(e);
            },
        }
        i += 1;
    }
    proof {
        assert(ds.take(n as int) =~= ds);
    }
    Ok(())
}

/// Types that represent a set of plugins to admit: one descriptor, a
/// group, or a tuple mixing both, nested to any depth. `flat` is the
/// depth-first, left-to-right flattening the admission performs.
pub trait Plugins<Marker>: Sized {
    /// The ordered descriptor sequence this value flattens to.
    spec fn flat(&self) -> Seq<DescModel>;

    /// Admits the flattening under the strict policy: a duplicate aborts
    /// the fold with an error, the already-admitted prefix remains.
    fn add_to_app(self, app: &mut App) -> (r: Result<(), AppError>)
        requires
            old(app)@.state is Adding,
            inv(old(app)@),
        ensures
            inv(final(app)@),
            final(app)@.state == old(app)@.state,
            final(app)@ == admit_seq(old(app)@, self.flat(), AdmissionPolicy::Strict).0,
            outcome_matches(r, admit_seq(old(app)@, self.flat(), AdmissionPolicy::Strict).1),
    ;

    /// Admits the flattening under the idempotent policy: duplicates are
    /// skipped silently; only a registration still mid-build is an error.
    fn add_to_app_if_new(self, app: &mut App) -> (r: Result<(), AppError>)
        requires
            old(app)@.state is Adding,
            inv(old(app)@),
        ensures
            inv(final(app)@),
            final(app)@.state == old(app)@.state,
            final(app)@ == admit_seq(old(app)@, self.flat(), AdmissionPolicy::Idempotent).0,
            outcome_matches(r, admit_seq(old(app)@, self.flat(), AdmissionPolicy::Idempotent).1),
    ;
}

impl Plugins<PluginMarker> for PluginDescriptor {
    open spec fn flat(&self) -> Seq<DescModel> {
        seq![(*self)@]
    }

    fn add_to_app(self, app: &mut App) -> (r: Result<(), AppError>) {
        let ghost d = self@;
        let r = app.register(self, AdmissionPolicy::Strict);
        proof {
            lemma_admit_seq_single(old(app)@, d, AdmissionPolicy::Strict);
        }
        match r {
            Ok(_) => Ok(()),
            Err(e) => Err(e),
        }
    }

    fn add_to_app_if_new(self, app: &mut App) -> (r: Result<(), AppError>) {
        let ghost d = self@;
        let r = app.register(self, AdmissionPolicy::Idempotent);
        proof {
            lemma_admit_seq_single(old(app)@, d, AdmissionPolicy::Idempotent);
        }
        match r {
            Ok(_) => Ok(()),
            Err(e) => Err(e),
        }
    }
}

impl Plugins<PluginGroupMarker> for PluginGroup {
    open spec fn flat(&self) -> Seq<DescModel> {
        flat_group((*self)@)
    }

    fn add_to_app(self, app: &mut App) -> (r: Result<(), AppError>) {
        let descs = self.build();
        register_all(app, descs, AdmissionPolicy::Strict)
    }

    fn add_to_app_if_new(self, app: &mut App) -> (r: Result<(), AppError>) {
        let descs = self.build();
        register_all(app, descs, AdmissionPolicy::Idempotent)
    }
}

impl Plugins<(PluginsTupleMarker, )> for () {
    open spec fn flat(&self) -> Seq<DescModel> {
        Seq::empty()
    }

    fn add_to_app(self, app: &mut App) -> (r: Result<(), AppError>) {
        Ok(())
    }

    fn add_to_app_if_new(self, app: &mut App) -> (r: Result<(), AppError>) {
        Ok(())
    }
}

impl<M1, T1: Plugins<M1>> Plugins<(PluginsTupleMarker, M1)> for (T1, ) {
    open spec fn flat(&self) -> Seq<DescModel> {
        self.0.flat()
    }

    fn add_to_app(self, app: &mut App) -> (r: Result<(), AppError>) {
        let (t1,) = self;
        t1.add_to_app(app)
    }

    fn add_to_app_if_new(self, app: &mut App) -> (r: Result<(), AppError>) {
        let (t1,) = self;
        t1.add_to_app_if_new(app)
    }
}

impl<M1, M2, T1: Plugins<M1>, T2: Plugins<M2>> Plugins<(PluginsTupleMarker, M1, M2)> for (T1, T2) {
    open spec fn flat(&self) -> Seq<DescModel> {
        self.0.flat() + self.1.flat()
    }

    fn add_to_app(self, app: &mut App) -> (r: Result<(), AppError>) {
        let ghost m0 = old(app)@;
        let (t1, t2) = self;
        let ghost f1 = t1.flat();
        let ghost f2 = t2.flat();
        let r1 = t1.add_to_app(app);
        proof {
            lemma_admit_seq_concat(m0, f1, f2, AdmissionPolicy::Strict);
        }
        match r1 {
            Err(e) => Err(e),
            Ok(()) => t2.add_to_app(app),
        }
    }

    fn add_to_app_if_new(self, app: &mut App) -> (r: Result<(), AppError>) {
        let ghost m0 = old(app)@;
        let (t1, t2) = self;
        let ghost f1 = t1.flat();
        let ghost f2 = t2.flat();
        let r1 = t1.add_to_app_if_new(app);
        proof {
            lemma_admit_seq_concat(m0, f1, f2, AdmissionPolicy::Idempotent);
        }
        match r1 {
            Err(e) => Err(e),
            Ok(()) => t2.add_to_app_if_new(app),
        }
    }
}

impl<M1, M2, M3, T1: Plugins<M1>, T2: Plugins<M2>, T3: Plugins<M3>> Plugins<
    (PluginsTupleMarker, M1, M2, M3),
> for (T1, T2, T3) {
    open spec fn flat(&self) -> Seq<DescModel> {
        self.0.flat() + self.1.flat() + self.2.flat()
    }

    fn add_to_app(self, app: &mut App) -> (r: Result<(), AppError>) {
        let ghost m0 = old(app)@;
        let (t1, t2, t3) = self;
        let ghost f1 = t1.flat();
        let ghost f2 = t2.flat();
        let ghost f3 = t3.flat();
        let r1 = t1.add_to_app(app);
        let ghost m1 = app@;
        proof {
            assert(f1 + f2 + f3 =~= f1 + (f2 + f3));
            lemma_admit_seq_concat(m0, f1, f2 + f3, AdmissionPolicy::Strict);
        }
        match r1 {
            Err(e) => Err(e),
            Ok(()) => {
                let r2 = t2.add_to_app(app);
                proof {
                    lemma_admit_seq_concat(m1, f2, f3, AdmissionPolicy::Strict);
                }
                match r2 {
                    Err(e) => Err(e),
                    Ok(()) => t3.add_to_app(app),
                }
            },
        }
    }

    fn add_to_app_if_new(self, app: &mut App) -> (r: Result<(), AppError>) {
        let ghost m0 = old(app)@;
        let (t1, t2, t3) = self;
        let ghost f1 = t1.flat();
        let ghost f2 = t2.flat();
        let ghost f3 = t3.flat();
        let r1 = t1.add_to_app_if_new(app);
        let ghost m1 = app@;
        proof {
            assert(f1 + f2 + f3 =~= f1 + (f2 + f3));
            lemma_admit_seq_concat(m0, f1, f2 + f3, AdmissionPolicy::Idempotent);
        }
        match r1 {
            Err(e) => Err(e),
            Ok(()) => {
                let r2 = t2.add_to_app_if_new(app);
                proof {
                    lemma_admit_seq_concat(m1, f2, f3, AdmissionPolicy::Idempotent);
                }
                match r2 {
                    Err(e) => Err(e),
                    Ok(()) => t3.add_to_app_if_new(app),
                }
            },
        }
    }
}

impl App {
    /// Admits a plugin, a group, or a tuple of such under the strict
    /// policy: the depth-first, left-to-right flattening is folded into the
    /// registry; a duplicate aborts the admission with `DuplicatePlugin`,
    /// the already-admitted prefix remaining registered.
    pub fn add<M, P: Plugins<M>>(&mut self, plugins: P) -> (r: Result<(), AppError>)
        requires
            old(self)@.state is Adding,
            inv(old(self)@),
        ensures
            inv(final(self)@),
            final(self)@.state == old(self)@.state,
            final(self)@ == admit_seq(old(self)@, plugins.flat(), AdmissionPolicy::Strict).0,
            outcome_matches(r, admit_seq(old(self)@, plugins.flat(), AdmissionPolicy::Strict).1),
    {
        plugins.add_to_app(self)
    }

    /// Admits a plugin, a group, or a tuple of such under the idempotent
    /// policy: duplicates are skipped silently, no hooks run a second
    /// time; only a registration still mid-build is an error.
    pub fn add_if_new<M, P: Plugins<M>>(&mut self, plugins: P) -> (r: Result<(), AppError>)
        requires
            old(self)@.state is Adding,
            inv(old(self)@),
        ensures
            inv(final(self)@),
            final(self)@.state == old(self)@.state,
            final(self)@ == admit_seq(old(self)@, plugins.flat(), AdmissionPolicy::Idempotent).0,
            outcome_matches(
                r,
                admit_seq(old(self)@, plugins.flat(), AdmissionPolicy::Idempotent).1,
            ),
    {
        plugins.add_to_app_if_new(self)
    }
}

} // verus!
