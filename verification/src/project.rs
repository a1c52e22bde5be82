//! Field projection ("shrinking") of raw records, and the specialization
//! index that trait enrichment joins against.

use vstd::prelude::*;

use crate::error::{err, err_is, Error, ErrorKind, SpecError};
use crate::json::{obj_take3, obj_take4, spec_obj_get, Json};

verus! {

/// A skill record projected down to the fields the report needs; `name` and
/// `icon` are checked only at render time, `typ` and `profession` are
/// guaranteed present by the projection filter (`profession` is the single
/// element of the record's one-entry `professions` list).
#[derive(Debug)]
pub struct SkillRec {
    pub name: Option<Json>,
    pub icon: Option<Json>,
    pub typ: Json,
    pub profession: Json,
}

/// A trait record projected down to the fields the report needs; nothing is
/// checked until enrichment and rendering.
#[derive(Debug)]
pub struct TraitRec {
    pub name: Option<Json>,
    pub icon: Option<Json>,
    pub specialization: Option<Json>,
}

/// A skill record survives projection exactly when its `professions` field
/// is an array of exactly one element and its `type` field is present and
/// non-null.
pub open spec fn skill_survives(r: Json) -> bool {
    &&& r.spec_get("professions"@) matches Some(Json::Arr(profs)) && profs@.len() == 1
    &&& r.spec_get("type"@) matches Some(t) && !(t is Null)
}

/// The projection of a surviving skill record.
pub open spec fn spec_project_skill(r: Json) -> SkillRec {
    SkillRec {
        name: r.spec_get("name"@),
        icon: r.spec_get("icon"@),
        typ: match r.spec_get("type"@) {
            Some(t) => t,
            None => Json::Null,
        },
        profession: match r.spec_get("professions"@) {
            Some(Json::Arr(profs)) => profs@[0],
            _ => Json::Null,
        },
    }
}

/// The projections of the surviving records, in input order.
pub open spec fn spec_shrink_skills(recs: Seq<Json>) -> Seq<SkillRec>
    decreases recs.len(),
{
    if recs.len() == 0 {
        Seq::empty()
    } else {
        let rest = spec_shrink_skills(recs.drop_last());
        if skill_survives(recs.last()) {
            rest.push(spec_project_skill(recs.last()))
        } else {
            rest
        }
    }
}

/// What `shrink_skills` returns: the surviving projections, or why the input
/// is rejected.
pub open spec fn spec_skills_res(j: Json) -> Result<Seq<SkillRec>, SpecError> {
    match j {
        Json::Arr(recs) => if forall|k: int| 0 <= k < recs@.len() ==> recs@[k] is Obj {
            Ok(spec_shrink_skills(recs@))
        } else {
            Err((ErrorKind::Shape, "not an object"@))
        },
        _ => Err((ErrorKind::Fetch, "is not an array"@)),
    }
}

/// A record survives projection iff its `professions` field is an array with
/// exactly one element and its `type` field is present and non-null: adding
/// a record to the input adds its projection to the output exactly when it
/// survives.
pub proof fn lemma_skill_survival(recs: Seq<Json>, r: Json)
    ensures
        spec_shrink_skills(recs.push(r)) == if skill_survives(r) {
            spec_shrink_skills(recs).push(spec_project_skill(r))
        } else {
            spec_shrink_skills(recs)
        },
{
    assert(recs.push(r).drop_last() =~= recs);
}

/// Projects skill records: keeps only {name, icon, type, professions}, drops
/// records whose `professions` is not a one-element array or whose `type` is
/// missing or null, and collapses `professions` to its single element.
#[verifier::loop_isolation(false)]
pub fn shrink_skills(json: Json) -> (r: Result<Vec<SkillRec>, Error>)
    ensures
        match r {
            Ok(v) => spec_skills_res(json) == Ok::<Seq<SkillRec>, SpecError>(v@),
            Err(e) => match spec_skills_res(json) {
                Ok(_) => false,
                Err(s) => err_is(e, s),
            },
        },
{
    let ghost gj = json;
    match json {
        Json::Arr(recs) => {
            let ghost orig = recs@;
            proof {
                assert(gj == Json::Arr(recs));
            }
            let mut rest = recs;
            let mut out: Vec<SkillRec> = Vec::new();
            let ghost mut i: int = 0;
            proof {
                assert(rest@ =~= orig.skip(0));
                assert(orig.take(0) =~= Seq::<Json>::empty());
            }
            while rest.len() > 0
                invariant
                    0 <= i <= orig.len(),
                    rest@ =~= orig.skip(i),
                    forall|k: int| 0 <= k < i ==> orig[k] is Obj,
                    out@ == spec_shrink_skills(orig.take(i)),
                decreases rest.len(),
            {
                let rec = rest.remove(0);
                proof {
                    assert(rec == orig[i]);
                    assert(rest@ =~= orig.skip(i + 1));
                    assert(orig.take(i + 1).drop_last() =~= orig.take(i));
                    assert(orig.take(i + 1).last() == orig[i]);
                }
                match rec {
                    Json::Obj(pairs) => {
                        let ghost gp = pairs@;
                        proof {
                            assert(orig[i] == Json::Obj(pairs));
                            reveal_strlit("name");
                            reveal_strlit("icon");
                            reveal_strlit("type");
                            reveal_strlit("professions");
                            assert("name"@[0] != "icon"@[0]);
                            assert("name"@[0] != "type"@[0]);
                            assert("icon"@[0] != "type"@[0]);
                            assert("professions"@.len() != "name"@.len());
                            assert("professions"@.len() != "icon"@.len());
                            assert("professions"@.len() != "type"@.len());
                        }
                        let (name, icon, typ_o, prof_o) = obj_take4(
                            pairs,
                            "name",
                            "icon",
                            "type",
                            "professions",
                        );
                        proof {
                            assert(orig[i].spec_get("name"@) == spec_obj_get(gp, "name"@));
                            assert(orig[i].spec_get("icon"@) == spec_obj_get(gp, "icon"@));
                            assert(orig[i].spec_get("type"@) == spec_obj_get(gp, "type"@));
                            assert(orig[i].spec_get("professions"@) == spec_obj_get(
                                gp,
                                "professions"@,
                            ));
                        }
                        match (typ_o, prof_o) {
                            (Some(typ), Some(Json::Arr(mut profs))) => {
                                let nonnull = match &typ {
                                    Json::Null => false,
                                    _ => true,
                                };
                                if nonnull && profs.len() == 1 {
                                    proof {
                                        assert(skill_survives(orig[i]));
                                    }
                                    let profession = profs.remove(0);
                                    out.push(SkillRec { name, icon, typ, profession });
                                    proof {
                                        assert(out@.last() == spec_project_skill(orig[i]));
                                    }
                                } else {
                                    proof {
                                        assert(!skill_survives(orig[i]));
                                    }
                                }
                            },
                            _ => {
                                proof {
                                    assert(!skill_survives(orig[i]));
                                }
                            },
                        }
                    },
                    _ => {
                        proof {
                            assert(!(orig[i] is Obj));
                        }
                        return Err(err(ErrorKind::Shape, "not an object"));
                    },
                }
                proof {
                    i = i + 1;
                }
            }
            proof {
                assert(orig.take(i) =~= orig);
            }
            Ok(out)
        },
        _ => Err(err(ErrorKind::Fetch, "is not an array")),
    }
}

/// The projection of a trait record to {name, icon, specialization}.
pub open spec fn spec_project_trait(r: Json) -> TraitRec {
    TraitRec {
        name: r.spec_get("name"@),
        icon: r.spec_get("icon"@),
        specialization: r.spec_get("specialization"@),
    }
}

/// The projections of all trait records, in input order.
pub open spec fn spec_shrink_traits(recs: Seq<Json>) -> Seq<TraitRec>
    decreases recs.len(),
{
    if recs.len() == 0 {
        Seq::empty()
    } else {
        spec_shrink_traits(recs.drop_last()).push(spec_project_trait(recs.last()))
    }
}

/// What `shrink_traits` returns: every record's projection, or why the input
/// is rejected.
pub open spec fn spec_traits_res(j: Json) -> Result<Seq<TraitRec>, SpecError> {
    match j {
        Json::Arr(recs) => if forall|k: int| 0 <= k < recs@.len() ==> recs@[k] is Obj {
            Ok(spec_shrink_traits(recs@))
        } else {
            Err((ErrorKind::Shape, "not an object"@))
        },
        _ => Err((ErrorKind::Fetch, "is not an array"@)),
    }
}

/// Projects trait records: keeps only {name, icon, specialization}, with no
/// completeness check (that is deferred to enrichment and rendering).
#[verifier::loop_isolation(false)]
pub fn shrink_traits(json: Json) -> (r: Result<Vec<TraitRec>, Error>)
    ensures
        match r {
            Ok(v) => spec_traits_res(json) == Ok::<Seq<TraitRec>, SpecError>(v@),
            Err(e) => match spec_traits_res(json) {
                Ok(_) => false,
                Err(s) => err_is(e, s),
            },
        },
{
    let ghost gj = json;
    match json {
        Json::Arr(recs) => {
            let ghost orig = recs@;
            proof {
                assert(gj == Json::Arr(recs));
            }
            let mut rest = recs;
            let mut out: Vec<TraitRec> = Vec::new();
            let ghost mut i: int = 0;
            proof {
                assert(rest@ =~= orig.skip(0));
                assert(orig.take(0) =~= Seq::<Json>::empty());
            }
            while rest.len() > 0
                invariant
                    0 <= i <= orig.len(),
                    rest@ =~= orig.skip(i),
                    forall|k: int| 0 <= k < i ==> orig[k] is Obj,
                    out@ == spec_shrink_traits(orig.take(i)),
                decreases rest.len(),
            {
                let rec = rest.remove(0);
                proof {
                    assert(rec == orig[i]);
                    assert(rest@ =~= orig.skip(i + 1));
                    assert(orig.take(i + 1).drop_last() =~= orig.take(i));
                    assert(orig.take(i + 1).last() == orig[i]);
                }
                match rec {
                    Json::Obj(pairs) => {
                        let ghost gp = pairs@;
                        proof {
                            assert(orig[i] == Json::Obj(pairs));
                            reveal_strlit("name");
                            reveal_strlit("icon");
                            reveal_strlit("specialization");
                            assert("name"@[0] != "icon"@[0]);
                            assert("specialization"@.len() != "name"@.len());
                            assert("specialization"@.len() != "icon"@.len());
                        }
                        let (name, icon, specialization) = obj_take3(
                            pairs,
                            "name",
                            "icon",
                            "specialization",
                        );
                        proof {
                            assert(orig[i].spec_get("name"@) == spec_obj_get(gp, "name"@));
                            assert(orig[i].spec_get("icon"@) == spec_obj_get(gp, "icon"@));
                            assert(orig[i].spec_get("specialization"@) == spec_obj_get(
                                gp,
                                "specialization"@,
                            ));
                        }
                        out.push(TraitRec { name, icon, specialization });
                        proof {
                            assert(out@.last() == spec_project_trait(orig[i]));
                        }
                    },
                    _ => {
                        proof {
                            assert(!(orig[i] is Obj));
                        }
                        return Err(err(ErrorKind::Shape, "not an object"));
                    },
                }
                proof {
                    i = i + 1;
                }
            }
            proof {
                assert(orig.take(i) =~= orig);
            }
            Ok(out)
        },
        _ => Err(err(ErrorKind::Fetch, "is not an array")),
    }
}

/// The lookup from specialization id to (profession name, specialization
/// name). Later entries shadow earlier ones (last write wins).
#[derive(Debug)]
pub struct SpecIndex {
    pub entries: Vec<(u64, String, String)>,
}

/// The pair an id maps to, with later entries shadowing earlier ones.
pub open spec fn idx_lookup(entries: Seq<(u64, String, String)>, id: u64) -> Option<
    (String, String),
>
    decreases entries.len(),
{
    if entries.len() == 0 {
        None
    } else if entries.last().0 == id {
        Some((entries.last().1, entries.last().2))
    } else {
        idx_lookup(entries.drop_last(), id)
    }
}

/// The index entry a specialization record yields: (id, profession, name),
/// or why the record is rejected.
pub open spec fn spec_index_entry(r: Json) -> Result<(u64, String, String), SpecError> {
    match r.spec_get("id"@) {
        None => Err((ErrorKind::Shape, "cannot find id"@)),
        Some(idv) => match idv {
            Json::UInt(id) => match r.spec_get("name"@) {
                None => Err((ErrorKind::Shape, "cannot find spec"@)),
                Some(Json::Str(nm)) => match r.spec_get("profession"@) {
                    None => Err((ErrorKind::Shape, "cannot find spec"@)),
                    Some(Json::Str(prof)) => Ok((id, prof, nm)),
                    Some(_) => Err((ErrorKind::Shape, "cannot cast to str"@)),
                },
                Some(_) => Err((ErrorKind::Shape, "cannot cast to str"@)),
            },
            _ => Err((ErrorKind::Shape, "cannot cast to u64"@)),
        },
    }
}

/// The index entries of all records, first error first.
pub open spec fn spec_index_entries(recs: Seq<Json>) -> Result<
    Seq<(u64, String, String)>,
    SpecError,
>
    decreases recs.len(),
{
    if recs.len() == 0 {
        Ok(Seq::empty())
    } else {
        match spec_index_entries(recs.drop_last()) {
            Err(e) => Err(e),
            Ok(rest) => match spec_index_entry(recs.last()) {
                Ok(ent) => Ok(rest.push(ent)),
                Err(e) => Err(e),
            },
        }
    }
}

/// What `shrink_specializations` returns.
pub open spec fn spec_index_res(j: Json) -> Result<Seq<(u64, String, String)>, SpecError> {
    match j {
        Json::Arr(recs) => spec_index_entries(recs@),
        _ => Err((ErrorKind::Fetch, "is not an array"@)),
    }
}

/// Once a record fails to yield an index entry, every extension fails the
/// same way.
proof fn lemma_index_entries_extends_err(recs: Seq<Json>, i: int)
    requires
        0 <= i <= recs.len(),
        spec_index_entries(recs.take(i)) is Err,
    ensures
        spec_index_entries(recs) == spec_index_entries(recs.take(i)),
    decreases recs.len() - i,
{
    if i < recs.len() {
        assert(recs.take(i + 1).drop_last() =~= recs.take(i));
        lemma_index_entries_extends_err(recs, i + 1);
    } else {
        assert(recs.take(i) =~= recs);
    }
}

/// Builds the specialization index: every record must carry an unsigned
/// integer `id`, a string `name` and a string `profession`; duplicate ids
/// keep the last record's pair.
#[verifier::loop_isolation(false)]
pub fn shrink_specializations(json: Json) -> (r: Result<SpecIndex, Error>)
    ensures
        match r {
            Ok(idx) => spec_index_res(json) == Ok::<Seq<(u64, String, String)>, SpecError>(
                idx.entries@,
            ),
            Err(e) => match spec_index_res(json) {
                Ok(_) => false,
                Err(s) => err_is(e, s),
            },
        },
{
    let ghost gj = json;
    match json {
        Json::Arr(recs) => {
            let ghost orig = recs@;
            proof {
                assert(gj == Json::Arr(recs));
            }
            let mut rest = recs;
            let mut out: Vec<(u64, String, String)> = Vec::new();
            let ghost mut i: int = 0;
            proof {
                assert(rest@ =~= orig.skip(0));
                assert(orig.take(0) =~= Seq::<Json>::empty());
            }
            while rest.len() > 0
                invariant
                    0 <= i <= orig.len(),
                    rest@ =~= orig.skip(i),
                    spec_index_entries(orig.take(i)) == Ok::<
                        Seq<(u64, String, String)>,
                        SpecError,
                    >(out@),
                decreases rest.len(),
            {
                let rec = rest.remove(0);
                proof {
                    assert(rec == orig[i]);
                    assert(rest@ =~= orig.skip(i + 1));
                    assert(orig.take(i + 1).drop_last() =~= orig.take(i));
                    assert(orig.take(i + 1).last() == orig[i]);
                }
                let fields = match rec {
                    Json::Obj(pairs) => {
                        let ghost gp = pairs@;
                        proof {
                            assert(orig[i] == Json::Obj(pairs));
                            reveal_strlit("id");
                            reveal_strlit("name");
                            reveal_strlit("profession");
                            assert("id"@.len() != "name"@.len());
                            assert("id"@.len() != "profession"@.len());
                            assert("name"@.len() != "profession"@.len());
                        }
                        let f = obj_take3(pairs, "id", "name", "profession");
                        proof {
                            assert(orig[i].spec_get("id"@) == spec_obj_get(gp, "id"@));
                            assert(orig[i].spec_get("name"@) == spec_obj_get(gp, "name"@));
                            assert(orig[i].spec_get("profession"@) == spec_obj_get(
                                gp,
                                "profession"@,
                            ));
                        }
                        f
                    },
                    _ => (None, None, None),
                };
                let entry_err: Option<&str> = match fields {
                    (Some(Json::UInt(id)), nm_o, prof_o) => match nm_o {
                        None => Some("cannot find spec"),
                        Some(Json::Str(nm)) => match prof_o {
                            None => Some("cannot find spec"),
                            Some(Json::Str(prof)) => {
                                out.push((id, prof, nm));
                                proof {
                                    assert(spec_index_entry(orig[i]) == Ok::<
                                        (u64, String, String),
                                        SpecError,
                                    >(out@.last()));
                                }
                                None
                            },
                            Some(_) => Some("cannot cast to str"),
                        },
                        Some(_) => Some("cannot cast to str"),
                    },
                    (None, _, _) => Some("cannot find id"),
                    (Some(_), _, _) => Some("cannot cast to u64"),
                };
                if let Some(msg) = entry_err {
                    proof {
                        assert(spec_index_entry(orig[i]) == Err::<
                            (u64, String, String),
                            SpecError,
                        >((ErrorKind::Shape, msg@)));
                        assert(spec_index_entries(orig.take(i + 1)) is Err);
                        lemma_index_entries_extends_err(orig, i + 1);
                    }
                    return Err(err(ErrorKind::Shape, msg));
                }
                proof {
                    i = i + 1;
                }
            }
            proof {
                assert(orig.take(i) =~= orig);
            }
            Ok(SpecIndex { entries: out })
        },
        _ => Err(err(ErrorKind::Fetch, "is not an array")),
    }
}

impl SpecIndex {
    /// Looks an id up, handing back the (profession, specialization name)
    /// pair it maps to.
    #[verifier::loop_isolation(false)]
    pub fn lookup(&self, id: u64) -> (r: Option<(String, String)>)
        ensures
            r == idx_lookup(self.entries@, id),
    {
        let mut j = self.entries.len();
        proof {
            assert(self.entries@.take(j as int) =~= self.entries@);
        }
        while j > 0
            invariant
                j <= self.entries@.len(),
                idx_lookup(self.entries@, id) == idx_lookup(self.entries@.take(j as int), id),
            decreases j,
        {
            j = j - 1;
            proof {
                assert(self.entries@.take(j + 1).drop_last() =~= self.entries@.take(j as int));
                assert(self.entries@.take(j + 1).last() == self.entries@[j as int]);
            }
            if self.entries[j].0 == id {
                return Some((self.entries[j].1.clone(), self.entries[j].2.clone()));
            }
        }
        None
    }
}

} // verus!
