//! Profile satisfiability: capability-class constraints of a profile
//! manifest.
//!
//! | class | name           | serves                                    |
//! |-------|----------------|-------------------------------------------|
//! | S0    | silent         | testimony-only (no connectivity, no keys) |
//! | S1    | passive-auth   | NFC chip / PUF / IEC 61406 identity link  |
//! | S2    | logged-contact | dumps on physical read, no comms          |
//! | S3    | connected      | full edge segments                        |
//!
//! A manifest whose declared subject capability class cannot serve a data
//! point's demands is unsatisfiable: a `min_capability` above the declared
//! class, or a bounded `fresh_within` on an S0/S1 subject.

use vstd::prelude::*;
use crate::manifest::{DataPointView, ManifestView, ProfileManifest};
use crate::text;

verus! {

/// The capability-class ladder, weakest to strongest.
pub const CAPABILITY_CLASSES: [&'static str; 4] = ["S0", "S1", "S2", "S3"];

/// The place of a class on the ladder.
pub open spec fn rank(class: Seq<char>) -> Option<u8> {
    if class == "S0"@ {
        Some(0)
    } else if class == "S1"@ {
        Some(1)
    } else if class == "S2"@ {
        Some(2)
    } else if class == "S3"@ {
        Some(3)
    } else {
        None
    }
}

/// Rank on the capability ladder; `None` when the token is no class.
pub fn capability_rank(class: &str) -> (r: Option<u8>)
    ensures
        r == rank(class@),
{
    if text::same(class, CAPABILITY_CLASSES[0]) {
        Some(0)
    } else if text::same(class, CAPABILITY_CLASSES[1]) {
        Some(1)
    } else if text::same(class, CAPABILITY_CLASSES[2]) {
        Some(2)
    } else if text::same(class, CAPABILITY_CLASSES[3]) {
        Some(3)
    } else {
        None
    }
}

/// Whether `actual` meets or exceeds `required`.
pub open spec fn meets(required: Seq<char>, actual: Seq<char>) -> bool {
    match (rank(required), rank(actual)) {
        (Some(r), Some(a)) => a >= r,
        _ => false,
    }
}

/// Does `actual` meet or exceed `required`?
pub fn satisfies(required: &str, actual: &str) -> (r: bool)
    ensures
        r == meets(required@, actual@),
{
    match (capability_rank(required), capability_rank(actual)) {
        (Some(r), Some(a)) => a >= r,
        _ => false,
    }
}

/// The ladder is a total order: of two classes one meets the other, and
/// what meets a class meets every class that one meets.
pub proof fn ladder_is_an_order(a: Seq<char>, b: Seq<char>, c: Seq<char>)
    ensures
        rank(a) is Some ==> meets(a, a),
        rank(a) is Some && rank(b) is Some ==> meets(a, b) || meets(b, a),
        meets(a, b) && meets(b, c) ==> meets(a, c),
        meets(a, b) && meets(b, a) ==> a == b,
{
}

/// One violation: the offending data point (field path) and why it cannot
/// be served.
#[derive(Debug, PartialEq, Eq)]
pub struct Violation {
    pub path: String,
    pub message: String,
}

/// The content of a violation.
pub struct ViolationView {
    pub path: Seq<char>,
    pub message: Seq<char>,
}

impl View for Violation {
    type V = ViolationView;

    open spec fn view(&self) -> ViolationView {
        ViolationView { path: self.path@, message: self.message@ }
    }
}

/// The contents of a sequence of violations.
pub open spec fn violation_views(s: Seq<Violation>) -> Seq<ViolationView> {
    s.map_values(|v: Violation| v@)
}

/// Whether a data point demands more than the class of the subject.
pub open spec fn over_demands(d: DataPointView, subject: u8) -> bool {
    rank(d.min_capability) matches Some(n) && n > subject
}

/// Whether a data point demands bounded freshness of a subject that cannot
/// serve it.
pub open spec fn over_fresh(d: DataPointView, subject: u8) -> bool {
    (d.fresh_within matches Some(f) && f.len() > 0) && subject <= 1
}

/// The violations of the data point at `i`.
pub open spec fn point_violations(d: DataPointView, i: nat, class: Seq<char>, subject: u8) -> Seq<
    ViolationView,
> {
    let demand = if over_demands(d, subject) {
        seq![
            ViolationView {
                path: "data_points["@ + text::decimal(i) + "].min_capability"@,
                message: "data point `"@ + d.element + "` demands capability `"@ + d.min_capability
                    + "` but the profile's declared subject capability class is `"@ + class
                    + "` — unsatisfiable"@,
            },
        ]
    } else {
        Seq::empty()
    };
    let fresh = if over_fresh(d, subject) {
        seq![
            ViolationView {
                path: "data_points["@ + text::decimal(i) + "].fresh_within"@,
                message: "data point `"@ + d.element + "` demands freshness within `"@
                    + d.fresh_within->Some_0 + "` but an `"@ + class
                    + "` subject (silent/passive-auth) cannot serve bounded freshness — unsatisfiable"@,
            },
        ]
    } else {
        Seq::empty()
    };
    demand + fresh
}

/// The violations of the first `n` data points.
pub open spec fn points_violations(ds: Seq<DataPointView>, n: int, class: Seq<char>, subject: u8) -> Seq<
    ViolationView,
>
    decreases n,
{
    if n <= 0 {
        Seq::empty()
    } else {
        points_violations(ds, n - 1, class, subject) + point_violations(
            ds[n - 1],
            (n - 1) as nat,
            class,
            subject,
        )
    }
}

/// The violations of a manifest; one without a known subject class has
/// none.
pub open spec fn violations(m: ManifestView) -> Seq<ViolationView> {
    match m.subject_capability {
        Some(class) => match rank(class) {
            Some(subject) => points_violations(
                m.data_points,
                m.data_points.len() as int,
                class,
                subject,
            ),
            None => Seq::empty(),
        },
        None => Seq::empty(),
    }
}

/// Checks a parsed profile manifest for unsatisfiable capability demands.
pub fn check(manifest: &ProfileManifest) -> (r: Result<(), Vec<Violation>>)
    ensures
        match r {
            Ok(_) => violations(manifest@).len() == 0,
            Err(v) => violations(manifest@).len() > 0 && violation_views(v@) == violations(manifest@),
        },
{
    let subject: &str = match &manifest.subject_capability {
        Some(s) => s.as_str(),
        None => return Ok(()),
    };
    let subject_rank: u8 = match capability_rank(subject) {
        Some(r) => r,
        None => return Ok(()),
    };
    let ghost ds = manifest@.data_points;
    let mut out: Vec<Violation> = Vec::new();
    let mut i: usize = 0;
    assert(violation_views(out@) =~= Seq::<ViolationView>::empty());
    while i < manifest.data_points.len()
        invariant
            i <= manifest.data_points@.len(),
            ds == manifest@.data_points,
            violation_views(out@) == points_violations(ds, i as int, subject@, subject_rank),
        decreases manifest.data_points@.len() - i,
    {
        let d = &manifest.data_points[i];
        assert(ds[i as int] == d@);
        let ghost before = violation_views(out@);
        let n = text::decimal_of_usize(i);
        if let Some(demanded) = capability_rank(d.min_capability.as_str()) {
            if demanded > subject_rank {
                out.push(
                    Violation {
                        path: text::cat3("data_points[", n.as_str(), "].min_capability"),
                        message: text::cat7(
                            "data point `",
                            d.element.as_str(),
                            "` demands capability `",
                            d.min_capability.as_str(),
                            "` but the profile's declared subject capability class is `",
                            subject,
                            "` — unsatisfiable",
                        ),
                    },
                );
            }
        }
        if let Some(fresh) = &d.fresh_within {
            if !fresh.as_str().is_empty() && subject_rank <= 1 {
                out.push(
                    Violation {
                        path: text::cat3("data_points[", n.as_str(), "].fresh_within"),
                        message: text::cat7(
                            "data point `",
                            d.element.as_str(),
                            "` demands freshness within `",
                            fresh.as_str(),
                            "` but an `",
                            subject,
                            "` subject (silent/passive-auth) cannot serve bounded freshness — unsatisfiable",
                        ),
                    },
                );
            }
        }
        assert(violation_views(out@) =~= before + point_violations(
            ds[i as int],
            i as nat,
            subject@,
            subject_rank,
        ));
        i = i + 1;
    }
    if out.len() == 0 {
        assert(violation_views(out@).len() == 0);
        Ok(())
    } else {
        assert(violation_views(out@).len() > 0);
        Err(out)
    }
}

/// A manifest has no violation exactly when every data point is servable
/// by the declared class.
pub proof fn satisfiable_iff_servable(m: ManifestView, class: Seq<char>, subject: u8)
    requires
        m.subject_capability == Some(class),
        rank(class) == Some(subject),
    ensures
        violations(m).len() == 0 <==> forall|i: int|
            0 <= i < m.data_points.len() ==> !over_demands(#[trigger] m.data_points[i], subject)
                && !over_fresh(m.data_points[i], subject),
{
    servable_prefix(m.data_points, m.data_points.len() as int, class, subject);
}

proof fn servable_prefix(ds: Seq<DataPointView>, n: int, class: Seq<char>, subject: u8)
    requires
        0 <= n <= ds.len(),
    ensures
        points_violations(ds, n, class, subject).len() == 0 <==> forall|i: int|
            0 <= i < n ==> !over_demands(#[trigger] ds[i], subject) && !over_fresh(ds[i], subject),
    decreases n,
{
    if n > 0 {
        servable_prefix(ds, n - 1, class, subject);
        assert(point_violations(ds[n - 1], (n - 1) as nat, class, subject).len() == 0 <==> !over_demands(
            ds[n - 1],
            subject,
        ) && !over_fresh(ds[n - 1], subject));
    }
}

/// The class at a place of the ladder.
pub open spec fn class_at(place: int) -> Seq<char> {
    if place == 0 {
        "S0"@
    } else if place == 1 {
        "S1"@
    } else if place == 2 {
        "S2"@
    } else {
        "S3"@
    }
}

/// The classes have different names, and each stands at its place.
proof fn classes_differ()
    ensures
        forall|a: int, b: int|
            0 <= a < 4 && 0 <= b < 4 && #[trigger] class_at(a) == #[trigger] class_at(b) ==> a == b,
        forall|a: int| 0 <= a < 4 ==> rank(#[trigger] class_at(a)) == Some(a as u8),
{
    reveal_strlit("S0");
    reveal_strlit("S1");
    reveal_strlit("S2");
    reveal_strlit("S3");
    assert("S0"@[1] == '0' && "S1"@[1] == '1' && "S2"@[1] == '2' && "S3"@[1] == '3');
}

/// S0 is below S1, S1 below S2 and S2 below S3: a class meets a demand
/// exactly when it stands no lower, and what is no class meets nothing and
/// is met by nothing.
pub proof fn higher_classes_meet_lower_demands(demand: int, class: int, other: Seq<char>)
    requires
        0 <= demand < 4,
        0 <= class < 4,
    ensures
        meets(class_at(demand), class_at(class)) <==> demand <= class,
        other != "S0"@ && other != "S1"@ && other != "S2"@ && other != "S3"@ ==> !meets(
            other,
            class_at(class),
        ) && !meets(class_at(demand), other),
{
    classes_differ();
}

/// What an accepted manifest demands, its subject can serve: no data point
/// asks for a class above the declared one, and none asks for bounded
/// freshness of a silent or passive subject.
pub proof fn accepted_demands_are_servable(m: ManifestView, class: int, i: int, demand: int)
    requires
        0 <= class < 4,
        m.subject_capability == Some(class_at(class)),
        violations(m).len() == 0,
        0 <= i < m.data_points.len(),
        0 <= demand < 4,
        m.data_points[i].min_capability == class_at(demand),
    ensures
        demand <= class,
        meets(m.data_points[i].min_capability, class_at(class)),
        class <= 1 ==> match m.data_points[i].fresh_within {
            Some(f) => f.len() == 0,
            None => true,
        },
{
    classes_differ();
    satisfiable_iff_servable(m, class_at(class), class as u8);
}

/// A manifest whose demands its subject can serve is accepted, and so is
/// one that declares no class of the ladder.
pub proof fn servable_demands_are_accepted(m: ManifestView, class: int)
    requires
        match m.subject_capability {
            None => true,
            Some(c) => {
                ||| c != "S0"@ && c != "S1"@ && c != "S2"@ && c != "S3"@
                ||| {
                    &&& 0 <= class < 4
                    &&& c == class_at(class)
                    &&& forall|i: int, demand: int|
                        0 <= i < m.data_points.len() && 0 <= demand < 4
                            && (#[trigger] m.data_points[i]).min_capability == #[trigger] class_at(demand)
                            ==> demand <= class
                    &&& class <= 1 ==> forall|i: int|
                        0 <= i < m.data_points.len() ==> match (#[trigger] m.data_points[i]).fresh_within {
                            Some(f) => f.len() == 0,
                            None => true,
                        }
                }
            },
        },
    ensures
        violations(m).len() == 0,
{
    classes_differ();
    if let Some(c) = m.subject_capability {
        if rank(c) is Some {
            let subject = class as u8;
            assert(c == class_at(class));
            satisfiable_iff_servable(m, c, subject);
            assert forall|i: int| 0 <= i < m.data_points.len() implies !over_demands(
                #[trigger] m.data_points[i],
                subject,
            ) && !over_fresh(m.data_points[i], subject) by {
                let d = m.data_points[i];
                if let Some(n) = rank(d.min_capability) {
                    assert(d.min_capability == class_at(n as int));
                }
            }
        }
    }
}

/// A data point that demands too much is reported at its own place, by its
/// element, its demand and the declared class.
pub proof fn each_excess_is_reported(m: ManifestView, class: int, i: int, demand: int)
    requires
        0 <= class < demand < 4,
        m.subject_capability == Some(class_at(class)),
        0 <= i < m.data_points.len(),
        m.data_points[i].min_capability == class_at(demand),
    ensures
        violations(m).contains(
            ViolationView {
                path: "data_points["@ + text::decimal(i as nat) + "].min_capability"@,
                message: "data point `"@ + m.data_points[i].element + "` demands capability `"@
                    + class_at(demand) + "` but the profile's declared subject capability class is `"@
                    + class_at(class) + "` — unsatisfiable"@,
            },
        ),
{
    classes_differ();
    let ds = m.data_points;
    let v = point_violations(ds[i], i as nat, class_at(class), class as u8);
    assert(v[0] == (ViolationView {
        path: "data_points["@ + text::decimal(i as nat) + "].min_capability"@,
        message: "data point `"@ + ds[i].element + "` demands capability `"@ + class_at(demand)
            + "` but the profile's declared subject capability class is `"@ + class_at(class)
            + "` — unsatisfiable"@,
    }));
    point_is_reported(ds, ds.len() as int, class_at(class), class as u8, i, v[0]);
}

/// What a silent or passive subject cannot keep fresh is reported.
pub proof fn each_stale_demand_is_reported(m: ManifestView, class: int, i: int, within: Seq<char>)
    requires
        0 <= class <= 1,
        m.subject_capability == Some(class_at(class)),
        0 <= i < m.data_points.len(),
        m.data_points[i].fresh_within == Some(within),
        within.len() > 0,
    ensures
        violations(m).contains(
            ViolationView {
                path: "data_points["@ + text::decimal(i as nat) + "].fresh_within"@,
                message: "data point `"@ + m.data_points[i].element + "` demands freshness within `"@
                    + within + "` but an `"@ + class_at(class)
                    + "` subject (silent/passive-auth) cannot serve bounded freshness — unsatisfiable"@,
            },
        ),
{
    classes_differ();
    let ds = m.data_points;
    let v = point_violations(ds[i], i as nat, class_at(class), class as u8);
    assert(v.last() == (ViolationView {
        path: "data_points["@ + text::decimal(i as nat) + "].fresh_within"@,
        message: "data point `"@ + ds[i].element + "` demands freshness within `"@ + within
            + "` but an `"@ + class_at(class)
            + "` subject (silent/passive-auth) cannot serve bounded freshness — unsatisfiable"@,
    }));
    assert(v[v.len() - 1] == v.last());
    point_is_reported(ds, ds.len() as int, class_at(class), class as u8, i, v.last());
}

/// A violation of one data point is among those of all.
proof fn point_is_reported(
    ds: Seq<DataPointView>,
    n: int,
    class: Seq<char>,
    subject: u8,
    i: int,
    v: ViolationView,
)
    requires
        0 <= i < n <= ds.len(),
        point_violations(ds[i], i as nat, class, subject).contains(v),
    ensures
        points_violations(ds, n, class, subject).contains(v),
    decreases n,
{
    let head = points_violations(ds, n - 1, class, subject);
    let tail = point_violations(ds[n - 1], (n - 1) as nat, class, subject);
    let all = points_violations(ds, n, class, subject);
    assert(all =~= head + tail);
    if i < n - 1 {
        point_is_reported(ds, n - 1, class, subject, i, v);
        let k = head.index_of(v);
        assert(all[k] == v);
    } else {
        let k = tail.index_of(v);
        assert(all[head.len() + k] == v);
    }
}

} // verus!
