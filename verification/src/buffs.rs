//! Buff extraction: walks the full trait records' nested `facts` arrays,
//! keeps the facts whose type tag is "Buff", and maps each buff status to
//! the icon of its first occurrence (later duplicates are dropped, even when
//! their icon differs).

use vstd::prelude::*;

use crate::error::{err, err_is, Error, ErrorKind, SpecError};
use crate::json::Json;
use crate::text::str_eq;

verus! {

/// The icon attached to the first entry with the given status.
pub open spec fn spec_first_icon(ps: Seq<(String, String)>, st: Seq<char>) -> Option<String>
    decreases ps.len(),
{
    if ps.len() == 0 {
        None
    } else if ps[0].0@ == st {
        Some(ps[0].1)
    } else {
        spec_first_icon(ps.drop_first(), st)
    }
}

/// Some entry carries the given status.
pub open spec fn spec_contains_status(ps: Seq<(String, String)>, st: Seq<char>) -> bool {
    spec_first_icon(ps, st) is Some
}

/// The (status, icon) pairs a single fact contributes: one pair for a
/// "Buff"-typed fact, none for any other shape, or why the fact is rejected.
pub open spec fn spec_fact_pairs(fact: Json) -> Result<Seq<(String, String)>, SpecError> {
    if !(fact is Obj) {
        Err((ErrorKind::Shape, "a fact is not an object"@))
    } else {
        match fact.spec_get("type"@) {
            None => Ok(Seq::empty()),
            Some(Json::Str(t)) => if t@ == "Buff"@ {
                match fact.spec_get("status"@) {
                    None => Err((ErrorKind::Shape, "cannot find status of a buff"@)),
                    Some(Json::Str(s)) => match fact.spec_get("icon"@) {
                        None => Err((ErrorKind::Shape, "cannot find icon of a buff"@)),
                        Some(Json::Str(ic)) => Ok(seq![(s, ic)]),
                        Some(_) => Err((ErrorKind::Shape, "cannot convert buff icon to string"@)),
                    },
                    Some(_) => Err((ErrorKind::Shape, "cannot convert buff status to string"@)),
                }
            } else {
                Ok(Seq::empty())
            },
            Some(_) => Err((ErrorKind::Shape, "fact type is not a string"@)),
        }
    }
}

/// The pairs of a sequence of facts, in order, first error first.
pub open spec fn spec_facts_pairs(facts: Seq<Json>) -> Result<Seq<(String, String)>, SpecError>
    decreases facts.len(),
{
    if facts.len() == 0 {
        Ok(Seq::empty())
    } else {
        match spec_facts_pairs(facts.drop_last()) {
            Err(e) => Err(e),
            Ok(rest) => match spec_fact_pairs(facts.last()) {
                Ok(ps) => Ok(rest + ps),
                Err(e) => Err(e),
            },
        }
    }
}

/// The pairs a single trait record contributes: those of its `facts` array,
/// none when the record has no `facts` key.
pub open spec fn spec_record_pairs(rec: Json) -> Result<Seq<(String, String)>, SpecError> {
    if !(rec is Obj) {
        Err((ErrorKind::Shape, "not an object"@))
    } else {
        match rec.spec_get("facts"@) {
            None => Ok(Seq::empty()),
            Some(Json::Arr(facts)) => spec_facts_pairs(facts@),
            Some(_) => Err((ErrorKind::Shape, "facts is not an array"@)),
        }
    }
}

/// The pairs of all records, in order, first error first.
pub open spec fn spec_records_pairs(recs: Seq<Json>) -> Result<Seq<(String, String)>, SpecError>
    decreases recs.len(),
{
    if recs.len() == 0 {
        Ok(Seq::empty())
    } else {
        match spec_records_pairs(recs.drop_last()) {
            Err(e) => Err(e),
            Ok(rest) => match spec_record_pairs(recs.last()) {
                Ok(ps) => Ok(rest + ps),
                Err(e) => Err(e),
            },
        }
    }
}

/// First occurrence wins: an entry is kept only when no earlier entry
/// already carries its status.
pub open spec fn spec_dedup_buffs(ps: Seq<(String, String)>) -> Seq<(String, String)>
    decreases ps.len(),
{
    if ps.len() == 0 {
        Seq::empty()
    } else {
        let rest = spec_dedup_buffs(ps.drop_last());
        if spec_contains_status(rest, ps.last().0@) {
            rest
        } else {
            rest.push(ps.last())
        }
    }
}

/// What `get_buffs` returns: the deduplicated (status, icon) entries in
/// first-seen order, or why the input is rejected.
pub open spec fn spec_buffs_res(j: Json) -> Result<Seq<(String, String)>, SpecError> {
    match j {
        Json::Arr(recs) => match spec_records_pairs(recs@) {
            Ok(ps) => Ok(spec_dedup_buffs(ps)),
            Err(e) => Err(e),
        },
        _ => Err((ErrorKind::Fetch, "input is not array"@)),
    }
}

/// An entry's status witnesses `spec_contains_status`.
proof fn lemma_index_implies_contains(ps: Seq<(String, String)>, a: int)
    requires
        0 <= a < ps.len(),
    ensures
        spec_contains_status(ps, ps[a].0@),
    decreases ps.len(),
{
    if ps[0].0@ != ps[a].0@ {
        lemma_index_implies_contains(ps.drop_first(), a - 1);
    }
}

/// Appending an entry changes a first-icon lookup only for a status not yet
/// present.
proof fn lemma_first_icon_push(ps: Seq<(String, String)>, p: (String, String), st: Seq<char>)
    ensures
        spec_first_icon(ps.push(p), st) == match spec_first_icon(ps, st) {
            Some(ic) => Some(ic),
            None => if p.0@ == st {
                Some(p.1)
            } else {
                None
            },
        },
    decreases ps.len(),
{
    if ps.len() == 0 {
        assert(ps.push(p)[0] == p);
        assert(ps.push(p).drop_first() =~= Seq::<(String, String)>::empty());
        if p.0@ == st {
            assert(spec_first_icon(ps.push(p), st) == Some(p.1));
        } else {
            assert(spec_first_icon(Seq::<(String, String)>::empty(), st) is None);
            assert(spec_first_icon(ps.push(p), st) is None);
        }
    } else {
        assert(ps.push(p)[0] == ps[0]);
        assert(ps.push(p).drop_first() =~= ps.drop_first().push(p));
        lemma_first_icon_push(ps.drop_first(), p, st);
        if ps[0].0@ == st {
            assert(spec_first_icon(ps.push(p), st) == Some(ps[0].1));
            assert(spec_first_icon(ps, st) == Some(ps[0].1));
        } else {
            assert(spec_first_icon(ps.push(p), st) == spec_first_icon(ps.drop_first().push(p), st));
            assert(spec_first_icon(ps, st) == spec_first_icon(ps.drop_first(), st));
        }
    }
}

/// The dedup map holds at most one icon per distinct status, that icon is
/// the one of the first entry with that status in input order, and it holds
/// exactly the statuses that occur in the input.
pub proof fn lemma_buffs_first_icon_wins(ps: Seq<(String, String)>)
    ensures
        forall|a: int, b: int|
            0 <= a < b < spec_dedup_buffs(ps).len() ==> spec_dedup_buffs(ps)[a].0@
                != spec_dedup_buffs(ps)[b].0@,
        forall|a: int|
            0 <= a < spec_dedup_buffs(ps).len() ==> spec_first_icon(
                ps,
                spec_dedup_buffs(ps)[a].0@,
            ) == Some(spec_dedup_buffs(ps)[a].1),
        forall|st: Seq<char>|
            spec_contains_status(spec_dedup_buffs(ps), st) == spec_contains_status(ps, st),
    decreases ps.len(),
{
    if ps.len() > 0 {
        let q = ps.drop_last();
        let p = ps.last();
        let rest = spec_dedup_buffs(q);
        lemma_buffs_first_icon_wins(q);
        assert(q.push(p) =~= ps);
        assert forall|st: Seq<char>| true implies spec_first_icon(ps, st) == match spec_first_icon(
            q,
            st,
        ) {
            Some(ic) => Some(ic),
            None => if p.0@ == st {
                Some(p.1)
            } else {
                None
            },
        } by {
            lemma_first_icon_push(q, p, st);
        }
        if spec_contains_status(rest, p.0@) {
            assert forall|st: Seq<char>| true implies spec_contains_status(rest, st)
                == spec_contains_status(ps, st) by {
                lemma_first_icon_push(q, p, st);
                assert(spec_contains_status(rest, st) == spec_contains_status(q, st));
                if st == p.0@ {
                    assert(spec_contains_status(rest, p.0@));
                }
            }
        } else {
            let d = rest.push(p);
            assert forall|a: int| 0 <= a < d.len() implies spec_first_icon(ps, d[a].0@) == Some(
                d[a].1,
            ) by {
                if a < rest.len() {
                    assert(d[a] == rest[a]);
                } else {
                    assert(d[a] == p);
                    assert(!spec_contains_status(q, p.0@));
                }
            }
            assert forall|a: int, b: int| 0 <= a < b < d.len() implies d[a].0@ != d[b].0@ by {
                if b < rest.len() {
                } else {
                    assert(d[b] == p);
                    assert(d[a] == rest[a]);
                    lemma_index_implies_contains(rest, a);
                }
            }
            assert forall|st: Seq<char>| true implies spec_contains_status(d, st)
                == spec_contains_status(ps, st) by {
                lemma_first_icon_push(rest, p, st);
                lemma_first_icon_push(q, p, st);
                assert(spec_contains_status(rest, st) == spec_contains_status(q, st));
            }
        }
    }
}

/// Decides whether some collected entry already carries the given status.
#[verifier::loop_isolation(false)]
fn contains_status(v: &Vec<(String, String)>, st: &str) -> (r: bool)
    ensures
        r == spec_contains_status(v@, st@),
{
    let n = v.len();
    proof {
        assert(v@.skip(0) =~= v@);
    }
    for k in 0..n
        invariant
            spec_contains_status(v@, st@) == spec_contains_status(v@.skip(k as int), st@),
    {
        proof {
            assert(v@.skip(k as int)[0] == v@[k as int]);
            assert(v@.skip(k as int).drop_first() =~= v@.skip(k + 1));
        }
        if str_eq(v[k].0.as_str(), st) {
            return true;
        }
    }
    false
}

/// Extracts the deduplicated buff map from the full trait records: for each
/// record's "Buff"-typed facts, the first icon seen per status wins.
#[verifier::loop_isolation(false)]
pub fn get_buffs(json: &Json) -> (r: Result<Vec<(String, String)>, Error>)
    ensures
        match r {
            Ok(v) => spec_buffs_res(*json) == Ok::<Seq<(String, String)>, SpecError>(v@),
            Err(e) => match spec_buffs_res(*json) {
                Ok(_) => false,
                Err(s) => err_is(e, s),
            },
        },
{
    match json {
        Json::Arr(recs) => {
            let n = recs.len();
            let mut out: Vec<(String, String)> = Vec::new();
            let ghost mut gps: Seq<(String, String)> = Seq::empty();
            proof {
                assert(recs@.take(0) =~= Seq::<Json>::empty());
            }
            for i in 0..n
                invariant
                    spec_records_pairs(recs@.take(i as int)) == Ok::<
                        Seq<(String, String)>,
                        SpecError,
                    >(gps),
                    out@ == spec_dedup_buffs(gps),
            {
                proof {
                    assert(recs@.take(i + 1).drop_last() =~= recs@.take(i as int));
                    assert(recs@.take(i + 1).last() == recs@[i as int]);
                }
                let rec = &recs[i];
                match rec {
                    Json::Obj(_) => {},
                    _ => {
                        proof {
                            assert(spec_records_pairs(recs@.take(i + 1)) is Err);
                            lemma_records_pairs_extends_err(recs@, i + 1);
                        }
                        return Err(err(ErrorKind::Shape, "not an object"));
                    },
                }
                match rec.get("facts") {
                    None => {
                        proof {
                            assert(spec_record_pairs(recs@[i as int]) == Ok::<
                                Seq<(String, String)>,
                                SpecError,
                            >(Seq::empty()));
                            assert(gps + Seq::<(String, String)>::empty() =~= gps);
                        }
                    },
                    Some(facts_v) => {
                        match facts_v {
                            Json::Arr(facts) => {
                                let m = facts.len();
                                let ghost mut gfs: Seq<(String, String)> = Seq::empty();
                                proof {
                                    assert(facts@.take(0) =~= Seq::<Json>::empty());
                                    assert(gps + Seq::<(String, String)>::empty() =~= gps);
                                }
                                for j in 0..m
                                    invariant
                                        spec_records_pairs(recs@.take(i as int)) == Ok::<
                                            Seq<(String, String)>,
                                            SpecError,
                                        >(gps),
                                        spec_facts_pairs(facts@.take(j as int)) == Ok::<
                                            Seq<(String, String)>,
                                            SpecError,
                                        >(gfs),
                                        out@ == spec_dedup_buffs(gps + gfs),
                                {
                                    proof {
                                        assert(facts@.take(j + 1).drop_last() =~= facts@.take(
                                            j as int,
                                        ));
                                        assert(facts@.take(j + 1).last() == facts@[j as int]);
                                    }
                                    let fact = &facts[j];
                                    let fact_err: Option<&str> = match fact {
                                        Json::Obj(_) => {
                                            match fact.get("type") {
                                                None => None,
                                                Some(Json::Str(t)) => {
                                                    if str_eq(t.as_str(), "Buff") {
                                                        match fact.get("status") {
                                                            None => Some(
                                                                "cannot find status of a buff",
                                                            ),
                                                            Some(Json::Str(status)) => {
                                                                match fact.get("icon") {
                                                                    None => Some(
                                                                        "cannot find icon of a buff",
                                                                    ),
                                                                    Some(Json::Str(icon)) => {
                                                                        let p = (
                                                                            status.clone(),
                                                                            icon.clone(),
                                                                        );
                                                                        proof {
                                                                            assert(spec_fact_pairs(
                                                                                facts@[j as int],
                                                                            ) == Ok::<
                                                                                Seq<
                                                                                    (
                                                                                        String,
                                                                                        String,
                                                                                    ),
                                                                                >,
                                                                                SpecError,
                                                                            >(seq![p]));
                                                                            assert((gps + gfs).push(
                                                                                p,
                                                                            ) =~= gps + gfs.push(p));
                                                                            assert((gps
                                                                                + gfs.push(
                                                                                p,
                                                                            )).drop_last() =~= gps
                                                                                + gfs);
                                                                            assert(gfs + seq![p]
                                                                                =~= gfs.push(p));
                                                                        }
                                                                        if !contains_status(
                                                                            &out,
                                                                            p.0.as_str(),
                                                                        ) {
                                                                            out.push(p);
                                                                        }
                                                                        proof {
                                                                            gfs = gfs.push(p);
                                                                        }
                                                                        None
                                                                    },
                                                                    Some(_) => Some(
                                                                        "cannot convert buff icon to string",
                                                                    ),
                                                                }
                                                            },
                                                            Some(_) => Some(
                                                                "cannot convert buff status to string",
                                                            ),
                                                        }
                                                    } else {
                                                        None
                                                    }
                                                },
                                                Some(_) => Some("fact type is not a string"),
                                            }
                                        },
                                        _ => Some("a fact is not an object"),
                                    };
                                    if let Some(msg) = fact_err {
                                        proof {
                                            assert(spec_fact_pairs(facts@[j as int]) == Err::<
                                                Seq<(String, String)>,
                                                SpecError,
                                            >((ErrorKind::Shape, msg@)));
                                            assert(spec_facts_pairs(facts@.take(j + 1)) is Err);
                                            lemma_facts_pairs_extends_err(facts@, j + 1);
                                            assert(spec_record_pairs(recs@[i as int])
                                                == spec_facts_pairs(facts@));
                                            assert(spec_records_pairs(recs@.take(i + 1)) is Err);
                                            lemma_records_pairs_extends_err(recs@, i + 1);
                                        }
                                        return Err(err(ErrorKind::Shape, msg));
                                    }
                                    proof {
                                        if spec_fact_pairs(facts@[j as int]) == Ok::<
                                            Seq<(String, String)>,
                                            SpecError,
                                        >(Seq::<(String, String)>::empty()) {
                                            assert(gfs + Seq::<(String, String)>::empty() =~= gfs);
                                        }
                                    }
                                }
                                proof {
                                    assert(facts@.take(m as int) =~= facts@);
                                    gps = gps + gfs;
                                }
                            },
                            _ => {
                                proof {
                                    assert(spec_records_pairs(recs@.take(i + 1)) is Err);
                                    lemma_records_pairs_extends_err(recs@, i + 1);
                                }
                                return Err(err(ErrorKind::Shape, "facts is not an array"));
                            },
                        }
                    },
                }
            }
            proof {
                assert(recs@.take(n as int) =~= recs@);
            }
            Ok(out)
        },
        _ => Err(err(ErrorKind::Fetch, "input is not array")),
    }
}

/// Once a fact fails, every extension of the fact list fails the same way.
proof fn lemma_facts_pairs_extends_err(facts: Seq<Json>, i: int)
    requires
        0 <= i <= facts.len(),
        spec_facts_pairs(facts.take(i)) is Err,
    ensures
        spec_facts_pairs(facts) == spec_facts_pairs(facts.take(i)),
    decreases facts.len() - i,
{
    if i < facts.len() {
        assert(facts.take(i + 1).drop_last() =~= facts.take(i));
        lemma_facts_pairs_extends_err(facts, i + 1);
    } else {
        assert(facts.take(i) =~= facts);
    }
}

/// Once a record fails, every extension of the record list fails the same
/// way.
proof fn lemma_records_pairs_extends_err(recs: Seq<Json>, i: int)
    requires
        0 <= i <= recs.len(),
        spec_records_pairs(recs.take(i)) is Err,
    ensures
        spec_records_pairs(recs) == spec_records_pairs(recs.take(i)),
    decreases recs.len() - i,
{
    if i < recs.len() {
        assert(recs.take(i + 1).drop_last() =~= recs.take(i));
        lemma_records_pairs_extends_err(recs, i + 1);
    } else {
        assert(recs.take(i) =~= recs);
    }
}

} // verus!
