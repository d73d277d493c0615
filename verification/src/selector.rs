//! Resolution of the effective selection rule from a configuration and an
//! optional project-type filter.

use vstd::prelude::*;
use vstd::seq_lib::lemma_seq_concat_contains_all_elements;

use crate::config::Config;
use crate::config::Project;
use crate::util::append_all;

verus! {

/// The effective, ephemeral selection rule: a file matches when its
/// extension is in `extensions` or its base name is in `names`.
pub struct SelectionRule {
    pub extensions: Vec<String>,
    pub names: Vec<String>,
}

impl SelectionRule {
    /// Membership of `s` in the effective extension set.
    pub open spec fn has_extension(&self, s: Seq<char>) -> bool {
        self.extensions.deep_view().contains(s)
    }

    /// Membership of `s` in the effective file-name set.
    pub open spec fn has_name(&self, s: Seq<char>) -> bool {
        self.names.deep_view().contains(s)
    }
}

/// A fatal selector failure: the requested project type names no profile.
pub enum SelectorError {
    UnknownProjectType(String),
}

impl SelectorError {
    /// Whether this error reports `t` as the unknown project type.
    pub open spec fn is_unknown(&self, t: Seq<char>) -> bool {
        match self {
            SelectorError::UnknownProjectType(name) => name@ == t,
        }
    }
}

/// Some project of the list carries extension `s`.
pub open spec fn any_project_has_type(projects: Seq<Project>, s: Seq<char>) -> bool {
    exists|i: int| 0 <= i < projects.len() && (#[trigger] projects[i].spec_has_type(s))
}

/// Some project of the list carries file name `s`.
pub open spec fn any_project_has_name(projects: Seq<Project>, s: Seq<char>) -> bool {
    exists|i: int| 0 <= i < projects.len() && (#[trigger] projects[i].spec_has_name(s))
}

/// The index of the first project whose type is `t`, if one exists.
pub open spec fn first_match(projects: Seq<Project>, t: Seq<char>) -> Option<int>
    decreases projects.len(),
{
    if projects.len() == 0 {
        None
    } else if projects[0].project_type@ == t {
        Some(0)
    } else {
        match first_match(projects.skip(1), t) {
            None => None,
            Some(i) => Some(i + 1),
        }
    }
}

/// `rule` is exactly the sets of project `p`, with the general files added
/// to the name set only.
pub open spec fn rule_for_project(rule: SelectionRule, p: Project, general: Seq<Seq<char>>) -> bool {
    &&& forall|s: Seq<char>| #[trigger] rule.has_extension(s) <==> p.spec_has_type(s)
    &&& forall|s: Seq<char>| #[trigger] rule.has_name(s) <==> p.spec_has_name(s)
        || general.contains(s)
}

/// `rule` is exactly the union of every project's sets, with the general
/// files added to the name set only.
pub open spec fn rule_for_union(
    rule: SelectionRule,
    projects: Seq<Project>,
    general: Seq<Seq<char>>,
) -> bool {
    &&& forall|s: Seq<char>| #[trigger] rule.has_extension(s) <==> any_project_has_type(projects, s)
    &&& forall|s: Seq<char>| #[trigger] rule.has_name(s) <==> any_project_has_name(projects, s)
        || general.contains(s)
}

proof fn lemma_first_match_at(projects: Seq<Project>, t: Seq<char>, k: int)
    requires
        0 <= k < projects.len(),
        projects[k].project_type@ == t,
        forall|j: int| 0 <= j < k ==> projects[j].project_type@ != t,
    ensures
        first_match(projects, t) == Some(k),
    decreases k,
{
    if k > 0 {
        let rest = projects.skip(1);
        assert(rest[k - 1] == projects[k]);
        assert forall|j: int| 0 <= j < k - 1 implies rest[j].project_type@ != t by {
            assert(rest[j] == projects[j + 1]);
        }
        lemma_first_match_at(rest, t, k - 1);
    }
}

proof fn lemma_first_match_none(projects: Seq<Project>, t: Seq<char>)
    requires
        forall|i: int| 0 <= i < projects.len() ==> projects[i].project_type@ != t,
    ensures
        first_match(projects, t) is None,
    decreases projects.len(),
{
    if projects.len() > 0 {
        let rest = projects.skip(1);
        assert forall|j: int| 0 <= j < rest.len() implies rest[j].project_type@ != t by {
            assert(rest[j] == projects[j + 1]);
        }
        lemma_first_match_none(rest, t);
    }
}

/// A found first match is in range, matches `t`, and nothing before it does.
pub proof fn lemma_first_match_properties(projects: Seq<Project>, t: Seq<char>)
    ensures
        match first_match(projects, t) {
            Some(k) => 0 <= k < projects.len() && projects[k].project_type@ == t && (forall|j: int|
                0 <= j < k ==> projects[j].project_type@ != t),
            None => forall|i: int| 0 <= i < projects.len() ==> projects[i].project_type@ != t,
        },
    decreases projects.len(),
{
    if projects.len() == 0 {
    } else if projects[0].project_type@ == t {
    } else {
        let rest = projects.skip(1);
        lemma_first_match_properties(rest, t);
        match first_match(rest, t) {
            Some(k) => {
                assert(first_match(projects, t) == Some(k + 1));
                assert(projects[k + 1] == rest[k]);
                assert forall|j: int| 0 <= j < k + 1 implies projects[j].project_type@ != t by {
                    if j > 0 {
                        assert(projects[j] == rest[j - 1]);
                    }
                }
            },
            None => {
                assert(first_match(projects, t) is None);
                assert forall|i: int| 0 <= i < projects.len()
                    implies projects[i].project_type@ != t by {
                    if i > 0 {
                        assert(projects[i] == rest[i - 1]);
                    }
                }
            },
        }
    }
}

/// Law: the selector's lookup fails exactly when no project of the
/// configuration carries the requested project type.
pub proof fn lemma_first_match_none_iff(projects: Seq<Project>, t: Seq<char>)
    ensures
        first_match(projects, t) is None <==> (forall|i: int|
            0 <= i < projects.len() ==> projects[i].project_type@ != t),
{
    lemma_first_match_properties(projects, t);
}

/// Finds the first project whose `project_type` equals `t`.
fn find_project(projects: &Vec<Project>, t: &String) -> (r: Option<usize>)
    ensures
        match r {
            Some(k) => first_match(projects@, t@) == Some(k as int),
            None => first_match(projects@, t@) is None,
        },
{
    let mut i: usize = 0;
    while i < projects.len()
        invariant
            i <= projects@.len(),
            forall|j: int| 0 <= j < i ==> projects@[j].project_type@ != t@,
        decreases projects@.len() - i,
    {
        if projects[i].project_type == *t {
            proof {
                lemma_first_match_at(projects@, t@, i as int);
            }
            return Some(i);
        }
        i += 1;
    }
    proof {
        lemma_first_match_none(projects@, t@);
    }
    None
}

/// Resolves the effective selection rule.
///
/// With `Some(t)` the rule is the first project named `t` (its own sets,
/// general files added to the name set only); an unknown `t` is the one
/// fatal selector error. With `None` the rule is the union over all
/// projects, general files again added to the name set only.
pub fn resolve(config: &Config, project_type: Option<&String>) -> (r: Result<
    SelectionRule,
    SelectorError,
>)
    ensures
        match project_type {
            None => r is Ok && rule_for_union(
                r->Ok_0,
                config.projects@,
                config.general_files.deep_view(),
            ),
            Some(t) => {
                &&& (r is Ok <==> first_match(config.projects@, t@) is Some)
                &&& (r is Ok ==> rule_for_project(
                    r->Ok_0,
                    config.projects@[first_match(config.projects@, t@)->0],
                    config.general_files.deep_view(),
                ))
                &&& (r is Err ==> r->Err_0.is_unknown(t@))
            },
        },
{
    match project_type {
        Some(t) => {
            match find_project(&config.projects, t) {
                Some(k) => {
                    proof {
                        lemma_first_match_properties(config.projects@, t@);
                    }
                    let mut extensions: Vec<String> = Vec::new();
                    append_all(&mut extensions, &config.projects[k].file_types);
                    let mut names: Vec<String> = Vec::new();
                    append_all(&mut names, &config.projects[k].file_names);
                    append_all(&mut names, &config.general_files);
                    proof {
                        let p = config.projects@[k as int];
                        let gen = config.general_files.deep_view();
                        assert(extensions.deep_view() =~= p.file_types.deep_view());
                        assert(names.deep_view() =~= p.file_names.deep_view() + gen);
                        assert forall|s: Seq<char>| #[trigger]
                            names.deep_view().contains(s) <==> p.spec_has_name(s) || gen.contains(
                                s,
                            ) by {
                            lemma_seq_concat_contains_all_elements(
                                p.file_names.deep_view(),
                                gen,
                                s,
                            );
                        }
                    }
                    Ok(SelectionRule { extensions, names })
                },
                None => Err(SelectorError::UnknownProjectType(t.clone())),
            }
        },
        None => {
            let ghost ps = config.projects@;
            let mut extensions: Vec<String> = Vec::new();
            let mut names: Vec<String> = Vec::new();
            let mut i: usize = 0;
            while i < config.projects.len()
                invariant
                    i <= ps.len(),
                    ps == config.projects@,
                    forall|s: Seq<char>| #[trigger]
                        extensions.deep_view().contains(s) <==> any_project_has_type(
                            ps.take(i as int),
                            s,
                        ),
                    forall|s: Seq<char>| #[trigger]
                        names.deep_view().contains(s) <==> any_project_has_name(
                            ps.take(i as int),
                            s,
                        ),
                decreases ps.len() - i,
            {
                let ghost prev_exts = extensions.deep_view();
                let ghost prev_names = names.deep_view();
                append_all(&mut extensions, &config.projects[i].file_types);
                append_all(&mut names, &config.projects[i].file_names);
                proof {
                    lemma_any_take_step(ps, i as int);
                    assert forall|s: Seq<char>| #[trigger]
                        extensions.deep_view().contains(s) <==> any_project_has_type(
                            ps.take(i as int + 1),
                            s,
                        ) by {
                        lemma_seq_concat_contains_all_elements(
                            prev_exts,
                            ps[i as int].file_types.deep_view(),
                            s,
                        );
                        assert(any_project_has_type(ps.take(i as int + 1), s) <==> (
                        any_project_has_type(ps.take(i as int), s) || ps[i as int].spec_has_type(
                            s,
                        )));
                    }
                    assert forall|s: Seq<char>| #[trigger]
                        names.deep_view().contains(s) <==> any_project_has_name(
                            ps.take(i as int + 1),
                            s,
                        ) by {
                        lemma_seq_concat_contains_all_elements(
                            prev_names,
                            ps[i as int].file_names.deep_view(),
                            s,
                        );
                        assert(any_project_has_name(ps.take(i as int + 1), s) <==> (
                        any_project_has_name(ps.take(i as int), s) || ps[i as int].spec_has_name(
                            s,
                        )));
                    }
                }
                i += 1;
            }
            let ghost union_names = names.deep_view();
            append_all(&mut names, &config.general_files);
            proof {
                assert(ps.take(ps.len() as int) =~= ps);
                let gen = config.general_files.deep_view();
                assert forall|s: Seq<char>| #[trigger]
                    names.deep_view().contains(s) <==> any_project_has_name(ps, s) || gen.contains(
                        s,
                    ) by {
                    lemma_seq_concat_contains_all_elements(union_names, gen, s);
                    assert(union_names.contains(s) <==> any_project_has_name(
                        ps.take(ps.len() as int),
                        s,
                    ));
                }
            }
            Ok(SelectionRule { extensions, names })
        },
    }
}

proof fn lemma_any_take_step(projects: Seq<Project>, i: int)
    requires
        0 <= i < projects.len(),
    ensures
        forall|s: Seq<char>|
            #![trigger any_project_has_type(projects.take(i + 1), s)]
            any_project_has_type(projects.take(i + 1), s) <==> (any_project_has_type(
                projects.take(i),
                s,
            ) || projects[i].spec_has_type(s)),
        forall|s: Seq<char>|
            #![trigger any_project_has_name(projects.take(i + 1), s)]
            any_project_has_name(projects.take(i + 1), s) <==> (any_project_has_name(
                projects.take(i),
                s,
            ) || projects[i].spec_has_name(s)),
{
    assert forall|s: Seq<char>|
        any_project_has_type(projects.take(i + 1), s) <==> (any_project_has_type(
            projects.take(i),
            s,
        ) || projects[i].spec_has_type(s)) by {
        if any_project_has_type(projects.take(i + 1), s) {
            let j = choose|j: int|
                0 <= j < projects.take(i + 1).len() && (#[trigger] projects.take(i + 1)[
                    j
                ].spec_has_type(s));
            if j < i {
                assert(projects.take(i)[j].spec_has_type(s));
            } else {
                assert(projects[i].spec_has_type(s));
            }
        }
        if any_project_has_type(projects.take(i), s) {
            let j = choose|j: int|
                0 <= j < projects.take(i).len() && (#[trigger] projects.take(i)[j].spec_has_type(
                    s,
                ));
            assert(projects.take(i + 1)[j].spec_has_type(s));
        }
        if projects[i].spec_has_type(s) {
            assert(projects.take(i + 1)[i].spec_has_type(s));
        }
    }
    assert forall|s: Seq<char>|
        any_project_has_name(projects.take(i + 1), s) <==> (any_project_has_name(
            projects.take(i),
            s,
        ) || projects[i].spec_has_name(s)) by {
        if any_project_has_name(projects.take(i + 1), s) {
            let j = choose|j: int|
                0 <= j < projects.take(i + 1).len() && (#[trigger] projects.take(i + 1)[
                    j
                ].spec_has_name(s));
            if j < i {
                assert(projects.take(i)[j].spec_has_name(s));
            } else {
                assert(projects[i].spec_has_name(s));
            }
        }
        if any_project_has_name(projects.take(i), s) {
            let j = choose|j: int|
                0 <= j < projects.take(i).len() && (#[trigger] projects.take(i)[j].spec_has_name(
                    s,
                ));
            assert(projects.take(i + 1)[j].spec_has_name(s));
        }
        if projects[i].spec_has_name(s) {
            assert(projects.take(i + 1)[i].spec_has_name(s));
        }
    }
}

/// Law: a rule resolved for a project includes every general file in its
/// name set.
pub proof fn lemma_rule_names_include_general(
    rule: SelectionRule,
    p: Project,
    general: Seq<Seq<char>>,
)
    requires
        rule_for_project(rule, p, general),
    ensures
        forall|s: Seq<char>| general.contains(s) ==> #[trigger] rule.has_name(s),
{
}

/// The union of every project's extension set, as a set of character
/// sequences.
pub open spec fn all_extensions(projects: Seq<Project>) -> Set<Seq<char>>
    decreases projects.len(),
{
    if projects.len() == 0 {
        Set::empty()
    } else {
        all_extensions(projects.drop_last()).union(
            projects.last().file_types.deep_view().to_set(),
        )
    }
}

proof fn lemma_any_iff_all_extensions(projects: Seq<Project>, s: Seq<char>)
    ensures
        any_project_has_type(projects, s) <==> all_extensions(projects).contains(s),
    decreases projects.len(),
{
    if projects.len() > 0 {
        lemma_any_iff_all_extensions(projects.drop_last(), s);
        let last = projects.len() - 1;
        if any_project_has_type(projects, s) {
            let j = choose|j: int|
                0 <= j < projects.len() && (#[trigger] projects[j].spec_has_type(s));
            if j < last {
                assert(projects.drop_last()[j].spec_has_type(s));
            } else {
                assert(projects.last().spec_has_type(s));
            }
        }
        if any_project_has_type(projects.drop_last(), s) {
            let j = choose|j: int|
                0 <= j < projects.drop_last().len() && (#[trigger] projects.drop_last()[
                    j
                ].spec_has_type(s));
            assert(projects[j].spec_has_type(s));
        }
        if projects.last().spec_has_type(s) {
            assert(projects[last].spec_has_type(s));
        }
    }
}

/// Law: a rule resolved with no project-type filter has as its extension
/// set exactly the union of every project's extensions.
pub proof fn lemma_union_rule_extension_set(
    rule: SelectionRule,
    projects: Seq<Project>,
    general: Seq<Seq<char>>,
)
    requires
        rule_for_union(rule, projects, general),
    ensures
        rule.extensions.deep_view().to_set() == all_extensions(projects),
{
    assert forall|s: Seq<char>|
        #![trigger all_extensions(projects).contains(s)]
        rule.extensions.deep_view().to_set().contains(s) <==> all_extensions(projects).contains(
            s,
        ) by {
        lemma_any_iff_all_extensions(projects, s);
        assert(rule.has_extension(s) <==> any_project_has_type(projects, s));
        assert(rule.extensions.deep_view().to_set().contains(s) == rule.extensions.deep_view()
            .contains(s));
    }
    assert(rule.extensions.deep_view().to_set() =~= all_extensions(projects));
}

} // verus!
