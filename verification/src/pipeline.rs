//! The fixed pipeline over the three fetched record sets: extract buffs,
//! project skills and traits, build the specialization index, enrich and
//! render buffs, traits and skills, and concatenate the lines in that
//! order. Any failure aborts the whole run with no partial output.

use vstd::prelude::*;

use crate::buffs::{get_buffs, spec_buffs_res};
use crate::error::{err_is, Error, SpecError};
use crate::json::Json;
use crate::markdown::{
    buffs_to_markdown, skills_to_markdown, spec_buffs_md, spec_skills_md, spec_traits_md,
    traits_to_markdown,
};
use crate::project::{
    shrink_skills, shrink_specializations, shrink_traits, spec_index_res, spec_skills_res,
    spec_traits_res,
};
use crate::render::lines_view;

verus! {

/// What a full run renders from the three fetched record sets: the buff
/// lines, then the trait lines, then the skill lines — or the first error,
/// in the fixed order of work (buff extraction, skill projection, trait
/// projection, index construction, then the renders).
pub open spec fn spec_render_all(sp: Json, sk: Json, tr: Json) -> Result<
    Seq<Seq<char>>,
    SpecError,
> {
    match spec_buffs_res(tr) {
        Err(e) => Err(e),
        Ok(buff_entries) => match spec_skills_res(sk) {
            Err(e) => Err(e),
            Ok(skills) => match spec_traits_res(tr) {
                Err(e) => Err(e),
                Ok(traits) => match spec_index_res(sp) {
                    Err(e) => Err(e),
                    Ok(entries) => match spec_traits_md(traits, entries) {
                        Err(e) => Err(e),
                        Ok(trait_lines) => match spec_skills_md(skills) {
                            Err(e) => Err(e),
                            Ok(skill_lines) => Ok(
                                spec_buffs_md(buff_entries) + trait_lines + skill_lines,
                            ),
                        },
                    },
                },
            },
        },
    }
}

/// Runs the whole compute pipeline on the three fetched record sets and
/// hands back the concatenated markdown lines.
pub fn render_all(specializations_full: Json, skills_full: Json, traits_full: Json) -> (r: Result<
    Vec<String>,
    Error,
>)
    ensures
        match r {
            Ok(lines) => spec_render_all(specializations_full, skills_full, traits_full) == Ok::<
                Seq<Seq<char>>,
                SpecError,
            >(lines_view(lines@)),
            Err(e) => match spec_render_all(specializations_full, skills_full, traits_full) {
                Ok(_) => false,
                Err(s) => err_is(e, s),
            },
        },
{
    let buff_entries = match get_buffs(&traits_full) {
        Ok(v) => v,
        Err(e) => return Err(e),
    };
    let skills = match shrink_skills(skills_full) {
        Ok(v) => v,
        Err(e) => return Err(e),
    };
    let traits = match shrink_traits(traits_full) {
        Ok(v) => v,
        Err(e) => return Err(e),
    };
    let index = match shrink_specializations(specializations_full) {
        Ok(v) => v,
        Err(e) => return Err(e),
    };
    let mut lines = match buffs_to_markdown(buff_entries) {
        Ok(v) => v,
        Err(e) => return Err(e),
    };
    let mut trait_lines = match traits_to_markdown(traits, &index) {
        Ok(v) => v,
        Err(e) => return Err(e),
    };
    let mut skill_lines = match skills_to_markdown(skills) {
        Ok(v) => v,
        Err(e) => return Err(e),
    };
    let ghost b = lines@;
    let ghost t = trait_lines@;
    let ghost s = skill_lines@;
    lines.append(&mut trait_lines);
    lines.append(&mut skill_lines);
    proof {
        assert(lines@ =~= b + t + s);
        assert(lines_view(b + t + s) =~= lines_view(b) + lines_view(t) + lines_view(s));
    }
    Ok(lines)
}

} // verus!
