//! The three markdown renderers: grouped skills, grouped enriched traits,
//! and the flat buff list under its fixed header. Buff entries are sorted by
//! status before rendering so the output is deterministic.

use vstd::prelude::*;
use vstd::string::StringExecFns;

use crate::error::{err, err_is, Error, ErrorKind, SpecError};
use crate::json::Json;
use crate::project::{idx_lookup, SkillRec, SpecIndex, TraitRec};
use crate::render::{
    entry_line, grouped_lines, lines_view, sort_rows, spec_entry_line, spec_grouped_lines,
    spec_sort_rows, Row,
};
use crate::text::lex_lt;

verus! {

/// The renderable row of a projected skill: profession and type as group
/// keys, or why the record cannot be rendered.
pub open spec fn spec_skill_row(rec: SkillRec) -> Result<Row, SpecError> {
    match rec.profession {
        Json::Str(prof) => match rec.typ {
            Json::Str(t) => match rec.name {
                None => Err((ErrorKind::Shape, "cannot find name"@)),
                Some(Json::Str(nm)) => match rec.icon {
                    None => Err((ErrorKind::Shape, "cannot find icon"@)),
                    Some(Json::Str(ic)) => Ok(
                        Row { outer: prof, inner: t, name: nm, icon: ic },
                    ),
                    Some(_) => Err((ErrorKind::Shape, "cannot cast to str"@)),
                },
                Some(_) => Err((ErrorKind::Shape, "cannot cast to str"@)),
            },
            _ => Err((ErrorKind::Shape, "cannot cast to str"@)),
        },
        _ => Err((ErrorKind::Shape, "cannot cast to str"@)),
    }
}

/// The rows of all projected skills, first error first.
pub open spec fn spec_skill_rows(recs: Seq<SkillRec>) -> Result<Seq<Row>, SpecError>
    decreases recs.len(),
{
    if recs.len() == 0 {
        Ok(Seq::empty())
    } else {
        match spec_skill_rows(recs.drop_last()) {
            Err(e) => Err(e),
            Ok(rest) => match spec_skill_row(recs.last()) {
                Ok(row) => Ok(rest.push(row)),
                Err(e) => Err(e),
            },
        }
    }
}

/// What `skills_to_markdown` returns: the grouped lines of the sorted rows.
pub open spec fn spec_skills_md(recs: Seq<SkillRec>) -> Result<Seq<Seq<char>>, SpecError> {
    match spec_skill_rows(recs) {
        Err(e) => Err(e),
        Ok(rows) => Ok(spec_grouped_lines(spec_sort_rows(rows), Seq::empty(), Seq::empty())),
    }
}

proof fn lemma_skill_rows_extends_err(recs: Seq<SkillRec>, i: int)
    requires
        0 <= i <= recs.len(),
        spec_skill_rows(recs.take(i)) is Err,
    ensures
        spec_skill_rows(recs) == spec_skill_rows(recs.take(i)),
    decreases recs.len() - i,
{
    if i < recs.len() {
        assert(recs.take(i + 1).drop_last() =~= recs.take(i));
        lemma_skill_rows_extends_err(recs, i + 1);
    } else {
        assert(recs.take(i) =~= recs);
    }
}

/// Renders projected skills: every record must carry string name, icon,
/// type and profession; rows are sorted by (profession, type, name) and
/// walked with headers at each group change.
#[verifier::loop_isolation(false)]
pub fn skills_to_markdown(skills: Vec<SkillRec>) -> (r: Result<Vec<String>, Error>)
    ensures
        match r {
            Ok(lines) => spec_skills_md(skills@) == Ok::<Seq<Seq<char>>, SpecError>(
                lines_view(lines@),
            ),
            Err(e) => match spec_skills_md(skills@) {
                Ok(_) => false,
                Err(s) => err_is(e, s),
            },
        },
{
    let ghost orig = skills@;
    let mut rest = skills;
    let mut rows: Vec<Row> = Vec::new();
    let ghost mut i: int = 0;
    proof {
        assert(rest@ =~= orig.skip(0));
        assert(orig.take(0) =~= Seq::<SkillRec>::empty());
    }
    while rest.len() > 0
        invariant
            0 <= i <= orig.len(),
            rest@ =~= orig.skip(i),
            spec_skill_rows(orig.take(i)) == Ok::<Seq<Row>, SpecError>(rows@),
        decreases rest.len(),
    {
        let rec = rest.remove(0);
        proof {
            assert(rec == orig[i]);
            assert(rest@ =~= orig.skip(i + 1));
            assert(orig.take(i + 1).drop_last() =~= orig.take(i));
            assert(orig.take(i + 1).last() == orig[i]);
        }
        let row_err: Option<&str> = match rec {
            SkillRec { name, icon, typ: Json::Str(t), profession: Json::Str(prof) } => {
                match name {
                    None => Some("cannot find name"),
                    Some(Json::Str(nm)) => match icon {
                        None => Some("cannot find icon"),
                        Some(Json::Str(ic)) => {
                            rows.push(Row { outer: prof, inner: t, name: nm, icon: ic });
                            None
                        },
                        Some(_) => Some("cannot cast to str"),
                    },
                    Some(_) => Some("cannot cast to str"),
                }
            },
            _ => Some("cannot cast to str"),
        };
        if let Some(msg) = row_err {
            proof {
                assert(spec_skill_row(orig[i]) == Err::<Row, SpecError>((ErrorKind::Shape, msg@)));
                assert(spec_skill_rows(orig.take(i + 1)) is Err);
                lemma_skill_rows_extends_err(orig, i + 1);
            }
            return Err(err(ErrorKind::Shape, msg));
        }
        proof {
            i = i + 1;
        }
    }
    proof {
        assert(orig.take(i) =~= orig);
    }
    let sorted = sort_rows(rows);
    Ok(grouped_lines(sorted))
}

/// A trait after the enrichment join: the profession and specialization
/// display name its id resolved to, and the fields still to be checked at
/// render time.
pub struct EnrichedTrait {
    pub profession: String,
    pub spec_name: String,
    pub name: Option<Json>,
    pub icon: Option<Json>,
}

/// What enrichment does to one projected trait: its `specialization` must
/// be an unsigned integer resolving in the index; failure to resolve is the
/// join error.
pub open spec fn spec_enrich_one(t: TraitRec, entries: Seq<(u64, String, String)>) -> Result<
    EnrichedTrait,
    SpecError,
> {
    match t.specialization {
        None => Err((ErrorKind::Shape, "no specialization"@)),
        Some(Json::UInt(id)) => match idx_lookup(entries, id) {
            None => Err((ErrorKind::Join, "cannot find spec"@)),
            Some(pair) => Ok(
                EnrichedTrait {
                    profession: pair.0,
                    spec_name: pair.1,
                    name: t.name,
                    icon: t.icon,
                },
            ),
        },
        Some(_) => Err((ErrorKind::Shape, "cannot cast to u64"@)),
    }
}

/// Enrichment of all traits, first error first; it runs to completion
/// before any render-time check.
pub open spec fn spec_enrich_all(ts: Seq<TraitRec>, entries: Seq<(u64, String, String)>) -> Result<
    Seq<EnrichedTrait>,
    SpecError,
>
    decreases ts.len(),
{
    if ts.len() == 0 {
        Ok(Seq::empty())
    } else {
        match spec_enrich_all(ts.drop_last(), entries) {
            Err(e) => Err(e),
            Ok(rest) => match spec_enrich_one(ts.last(), entries) {
                Ok(et) => Ok(rest.push(et)),
                Err(e) => Err(e),
            },
        }
    }
}

/// The renderable row of an enriched trait.
pub open spec fn spec_trait_row(e: EnrichedTrait) -> Result<Row, SpecError> {
    match e.name {
        None => Err((ErrorKind::Shape, "cannot find name"@)),
        Some(Json::Str(nm)) => match e.icon {
            None => Err((ErrorKind::Shape, "cannot find icon"@)),
            Some(Json::Str(ic)) => Ok(
                Row { outer: e.profession, inner: e.spec_name, name: nm, icon: ic },
            ),
            Some(_) => Err((ErrorKind::Shape, "cannot cast to str"@)),
        },
        Some(_) => Err((ErrorKind::Shape, "cannot cast to str"@)),
    }
}

/// The rows of all enriched traits, first error first.
pub open spec fn spec_trait_rows(es: Seq<EnrichedTrait>) -> Result<Seq<Row>, SpecError>
    decreases es.len(),
{
    if es.len() == 0 {
        Ok(Seq::empty())
    } else {
        match spec_trait_rows(es.drop_last()) {
            Err(e) => Err(e),
            Ok(rest) => match spec_trait_row(es.last()) {
                Ok(row) => Ok(rest.push(row)),
                Err(e) => Err(e),
            },
        }
    }
}

/// What `traits_to_markdown` returns: enrichment, then rows, then the
/// grouped lines of the sorted rows.
pub open spec fn spec_traits_md(ts: Seq<TraitRec>, entries: Seq<(u64, String, String)>) -> Result<
    Seq<Seq<char>>,
    SpecError,
> {
    match spec_enrich_all(ts, entries) {
        Err(e) => Err(e),
        Ok(es) => match spec_trait_rows(es) {
            Err(e) => Err(e),
            Ok(rows) => Ok(spec_grouped_lines(spec_sort_rows(rows), Seq::empty(), Seq::empty())),
        },
    }
}

proof fn lemma_enrich_all_extends_err(ts: Seq<TraitRec>, entries: Seq<(u64, String, String)>, i: int)
    requires
        0 <= i <= ts.len(),
        spec_enrich_all(ts.take(i), entries) is Err,
    ensures
        spec_enrich_all(ts, entries) == spec_enrich_all(ts.take(i), entries),
    decreases ts.len() - i,
{
    if i < ts.len() {
        assert(ts.take(i + 1).drop_last() =~= ts.take(i));
        lemma_enrich_all_extends_err(ts, entries, i + 1);
    } else {
        assert(ts.take(i) =~= ts);
    }
}

proof fn lemma_trait_rows_extends_err(es: Seq<EnrichedTrait>, i: int)
    requires
        0 <= i <= es.len(),
        spec_trait_rows(es.take(i)) is Err,
    ensures
        spec_trait_rows(es) == spec_trait_rows(es.take(i)),
    decreases es.len() - i,
{
    if i < es.len() {
        assert(es.take(i + 1).drop_last() =~= es.take(i));
        lemma_trait_rows_extends_err(es, i + 1);
    } else {
        assert(es.take(i) =~= es);
    }
}

/// A successfully enriched trait list covers every single trait.
proof fn lemma_enrich_all_covers(ts: Seq<TraitRec>, entries: Seq<(u64, String, String)>, k: int)
    requires
        0 <= k < ts.len(),
        spec_enrich_all(ts, entries) is Ok,
    ensures
        spec_enrich_one(ts[k], entries) is Ok,
    decreases ts.len(),
{
    if k < ts.len() - 1 {
        assert(ts.drop_last()[k] == ts[k]);
        lemma_enrich_all_covers(ts.drop_last(), entries, k);
    }
}

/// A trait whose specialization id does not resolve in the index.
pub open spec fn spec_unjoinable(t: TraitRec, entries: Seq<(u64, String, String)>) -> bool {
    t.specialization matches Some(Json::UInt(id)) && idx_lookup(entries, id) is None
}

/// If any trait's specialization id is absent from the index, rendering the
/// traits fails.
pub proof fn lemma_unjoinable_trait_fails(ts: Seq<TraitRec>, entries: Seq<(u64, String, String)>)
    requires
        exists|k: int| 0 <= k < ts.len() && spec_unjoinable(#[trigger] ts[k], entries),
    ensures
        spec_traits_md(ts, entries) is Err,
{
    let k = choose|k: int| 0 <= k < ts.len() && spec_unjoinable(#[trigger] ts[k], entries);
    if spec_enrich_all(ts, entries) is Ok {
        lemma_enrich_all_covers(ts, entries, k);
        assert(spec_enrich_one(ts[k], entries) is Err);
    }
}

/// Renders the projected traits: enriches every trait via the index, then
/// requires string name and icon, sorts by (profession, specialization
/// name, trait name) and walks with headers at each group change.
#[verifier::loop_isolation(false)]
pub fn traits_to_markdown(traits: Vec<TraitRec>, index: &SpecIndex) -> (r: Result<
    Vec<String>,
    Error,
>)
    ensures
        match r {
            Ok(lines) => spec_traits_md(traits@, index.entries@) == Ok::<
                Seq<Seq<char>>,
                SpecError,
            >(lines_view(lines@)),
            Err(e) => match spec_traits_md(traits@, index.entries@) {
                Ok(_) => false,
                Err(s) => err_is(e, s),
            },
        },
{
    let ghost orig = traits@;
    let ghost entries = index.entries@;
    let mut rest = traits;
    let mut enriched: Vec<EnrichedTrait> = Vec::new();
    let ghost mut i: int = 0;
    proof {
        assert(rest@ =~= orig.skip(0));
        assert(orig.take(0) =~= Seq::<TraitRec>::empty());
    }
    while rest.len() > 0
        invariant
            0 <= i <= orig.len(),
            rest@ =~= orig.skip(i),
            spec_enrich_all(orig.take(i), entries) == Ok::<Seq<EnrichedTrait>, SpecError>(
                enriched@,
            ),
        decreases rest.len(),
    {
        let t = rest.remove(0);
        proof {
            assert(t == orig[i]);
            assert(rest@ =~= orig.skip(i + 1));
            assert(orig.take(i + 1).drop_last() =~= orig.take(i));
            assert(orig.take(i + 1).last() == orig[i]);
        }
        let enrich_err: Option<(ErrorKind, &str)> = match t.specialization {
            None => Some((ErrorKind::Shape, "no specialization")),
            Some(Json::UInt(id)) => match index.lookup(id) {
                None => Some((ErrorKind::Join, "cannot find spec")),
                Some((prof, spec_name)) => {
                    enriched.push(
                        EnrichedTrait { profession: prof, spec_name, name: t.name, icon: t.icon },
                    );
                    None
                },
            },
            Some(_) => Some((ErrorKind::Shape, "cannot cast to u64")),
        };
        if let Some((kind, msg)) = enrich_err {
            proof {
                assert(spec_enrich_one(orig[i], entries) == Err::<EnrichedTrait, SpecError>(
                    (kind, msg@),
                ));
                assert(spec_enrich_all(orig.take(i + 1), entries) is Err);
                lemma_enrich_all_extends_err(orig, entries, i + 1);
            }
            return Err(err(kind, msg));
        }
        proof {
            i = i + 1;
        }
    }
    proof {
        assert(orig.take(i) =~= orig);
    }
    let ghost all = enriched@;
    let mut erest = enriched;
    let mut rows: Vec<Row> = Vec::new();
    let ghost mut j: int = 0;
    proof {
        assert(erest@ =~= all.skip(0));
        assert(all.take(0) =~= Seq::<EnrichedTrait>::empty());
    }
    while erest.len() > 0
        invariant
            0 <= j <= all.len(),
            erest@ =~= all.skip(j),
            spec_trait_rows(all.take(j)) == Ok::<Seq<Row>, SpecError>(rows@),
        decreases erest.len(),
    {
        let e = erest.remove(0);
        proof {
            assert(e == all[j]);
            assert(erest@ =~= all.skip(j + 1));
            assert(all.take(j + 1).drop_last() =~= all.take(j));
            assert(all.take(j + 1).last() == all[j]);
        }
        let row_err: Option<&str> = match e.name {
            None => Some("cannot find name"),
            Some(Json::Str(nm)) => match e.icon {
                None => Some("cannot find icon"),
                Some(Json::Str(ic)) => {
                    rows.push(Row { outer: e.profession, inner: e.spec_name, name: nm, icon: ic });
                    None
                },
                Some(_) => Some("cannot cast to str"),
            },
            Some(_) => Some("cannot cast to str"),
        };
        if let Some(msg) = row_err {
            proof {
                assert(spec_trait_row(all[j]) == Err::<Row, SpecError>((ErrorKind::Shape, msg@)));
                assert(spec_trait_rows(all.take(j + 1)) is Err);
                lemma_trait_rows_extends_err(all, j + 1);
            }
            return Err(err(ErrorKind::Shape, msg));
        }
        proof {
            j = j + 1;
        }
    }
    proof {
        assert(all.take(j) =~= all);
    }
    let sorted = sort_rows(rows);
    Ok(grouped_lines(sorted))
}

/// Strict order on buff entries: by status alone; statuses are distinct
/// after deduplication.
pub open spec fn buff_lt(a: (String, String), b: (String, String)) -> bool {
    lex_lt(a.0@, b.0@)
}

/// Where an insertion places a buff entry: before the first entry with a
/// strictly greater status.
pub open spec fn spec_insert_buff(x: (String, String), s: Seq<(String, String)>) -> Seq<
    (String, String),
>
    decreases s.len(),
{
    if s.len() == 0 {
        seq![x]
    } else if buff_lt(x, s[0]) {
        seq![x] + s
    } else {
        seq![s[0]] + spec_insert_buff(x, s.drop_first())
    }
}

/// Insertion sort of buff entries by status.
pub open spec fn spec_sort_buffs(s: Seq<(String, String)>) -> Seq<(String, String)>
    decreases s.len(),
{
    if s.len() == 0 {
        Seq::empty()
    } else {
        spec_insert_buff(s.last(), spec_sort_buffs(s.drop_last()))
    }
}

proof fn lemma_insert_buff_at(x: (String, String), s: Seq<(String, String)>, j: int)
    requires
        0 <= j <= s.len(),
        forall|k: int| 0 <= k < j ==> !buff_lt(x, #[trigger] s[k]),
        j < s.len() ==> buff_lt(x, s[j]),
    ensures
        spec_insert_buff(x, s) == s.take(j) + seq![x] + s.skip(j),
    decreases j,
{
    if j == 0 {
        if s.len() == 0 {
            assert(spec_insert_buff(x, s) =~= s.take(0) + seq![x] + s.skip(0));
        } else {
            assert(seq![x] + s =~= s.take(0) + seq![x] + s.skip(0));
        }
    } else {
        assert(!buff_lt(x, s[0]));
        lemma_insert_buff_at(x, s.drop_first(), j - 1);
        assert(seq![s[0]] + (s.drop_first().take(j - 1) + seq![x] + s.drop_first().skip(j - 1))
            =~= s.take(j) + seq![x] + s.skip(j));
    }
}

#[verifier::loop_isolation(false)]
fn insert_buff(v: &mut Vec<(String, String)>, x: (String, String))
    ensures
        final(v)@ == spec_insert_buff(x, old(v)@),
{
    let n = v.len();
    let mut j: usize = 0;
    while j < n && !crate::text::str_lt(x.0.as_str(), v[j].0.as_str())
        invariant
            j <= n,
            forall|k: int| 0 <= k < j ==> !buff_lt(x, #[trigger] v@[k]),
        decreases n - j,
    {
        j = j + 1;
    }
    proof {
        lemma_insert_buff_at(x, v@, j as int);
    }
    v.insert(j, x);
    proof {
        assert(old(v)@.insert(j as int, x) =~= old(v)@.take(j as int) + seq![x] + old(v)@.skip(
            j as int,
        ));
    }
}

/// Sorts buff entries by status.
#[verifier::loop_isolation(false)]
fn sort_buffs(entries: Vec<(String, String)>) -> (r: Vec<(String, String)>)
    ensures
        r@ == spec_sort_buffs(entries@),
{
    let ghost orig = entries@;
    let mut rest = entries;
    let mut out: Vec<(String, String)> = Vec::new();
    let ghost mut i: int = 0;
    proof {
        assert(rest@ =~= orig.skip(0));
        assert(orig.take(0) =~= Seq::<(String, String)>::empty());
    }
    while rest.len() > 0
        invariant
            0 <= i <= orig.len(),
            rest@ =~= orig.skip(i),
            out@ == spec_sort_buffs(orig.take(i)),
        decreases rest.len(),
    {
        let x = rest.remove(0);
        proof {
            assert(x == orig[i]);
            assert(rest@ =~= orig.skip(i + 1));
            assert(orig.take(i + 1).drop_last() =~= orig.take(i));
            assert(orig.take(i + 1).last() == orig[i]);
        }
        insert_buff(&mut out, x);
        proof {
            i = i + 1;
        }
    }
    proof {
        assert(orig.take(i) =~= orig);
    }
    out
}

/// One "[status]: icon" line per entry, in order.
pub open spec fn spec_buff_lines(es: Seq<(String, String)>) -> Seq<Seq<char>>
    decreases es.len(),
{
    if es.len() == 0 {
        Seq::empty()
    } else {
        seq![spec_entry_line(es[0].0@, es[0].1@)] + spec_buff_lines(es.drop_first())
    }
}

/// What `buffs_to_markdown` returns: the fixed header, then one line per
/// entry in status order. It is emitted even for an empty map.
pub open spec fn spec_buffs_md(entries: Seq<(String, String)>) -> Seq<Seq<char>> {
    seq!["## Buffs"@] + spec_buff_lines(spec_sort_buffs(entries))
}

/// Renders the buff map: its fixed header, then one entry line per status
/// in lexicographic status order.
#[verifier::loop_isolation(false)]
pub fn buffs_to_markdown(buffs: Vec<(String, String)>) -> (r: Result<Vec<String>, Error>)
    ensures
        match r {
            Ok(lines) => lines_view(lines@) == spec_buffs_md(buffs@),
            Err(_) => false,
        },
{
    let sorted = sort_buffs(buffs);
    let ghost all = sorted@;
    let mut out: Vec<String> = Vec::new();
    out.push(String::from_str("## Buffs"));
    let mut rest = sorted;
    let ghost mut i: int = 0;
    proof {
        assert(rest@ =~= all.skip(0));
        assert(lines_view(out@) =~= seq!["## Buffs"@]);
        assert(spec_buff_lines(all) == spec_buff_lines(all.skip(0)));
    }
    while rest.len() > 0
        invariant
            0 <= i <= all.len(),
            rest@ =~= all.skip(i),
            lines_view(out@) + spec_buff_lines(all.skip(i)) == spec_buffs_md(buffs@),
        decreases rest.len(),
    {
        let (status, icon) = rest.remove(0);
        proof {
            assert(status == all[i].0);
            assert(icon == all[i].1);
            assert(rest@ =~= all.skip(i + 1));
            assert(all.skip(i)[0] == all[i]);
            assert(all.skip(i).drop_first() =~= all.skip(i + 1));
        }
        let ghost out_before = out@;
        out.push(entry_line(status.as_str(), icon.as_str()));
        proof {
            assert(lines_view(out@) =~= lines_view(out_before) + seq![
                spec_entry_line(all[i].0@, all[i].1@),
            ]);
            assert(lines_view(out_before) + seq![spec_entry_line(all[i].0@, all[i].1@)]
                + spec_buff_lines(all.skip(i + 1)) =~= lines_view(out_before) + (seq![
                spec_entry_line(all[i].0@, all[i].1@),
            ] + spec_buff_lines(all.skip(i + 1))));
            i = i + 1;
        }
    }
    proof {
        assert(spec_buff_lines(all.skip(i)) =~= Seq::<Seq<char>>::empty());
        assert(lines_view(out@) + Seq::<Seq<char>>::empty() =~= lines_view(out@));
    }
    Ok(out)
}

/// Empty input yields an empty line sequence from the grouped renderers,
/// and from the buff renderer its fixed header alone.
pub proof fn lemma_empty_renderers(entries: Seq<(u64, String, String)>)
    ensures
        spec_skills_md(Seq::empty()) == Ok::<Seq<Seq<char>>, SpecError>(Seq::empty()),
        spec_traits_md(Seq::empty(), entries) == Ok::<Seq<Seq<char>>, SpecError>(Seq::empty()),
        spec_buffs_md(Seq::empty()) == seq!["## Buffs"@],
{
    assert(spec_grouped_lines(spec_sort_rows(Seq::empty()), Seq::empty(), Seq::empty()) =~= Seq::<
        Seq<char>,
    >::empty());
    assert(spec_buffs_md(Seq::empty()) =~= seq!["## Buffs"@]);
}

} // verus!
