//! Choosing the template for a new project.
use vstd::prelude::*;
use crate::config::{get_types, Data};
use crate::names::{lemma_strictly_sorted_no_duplicates, strictly_sorted, views};
use crate::nav::{canceled_string, canceled_token, fuzzy_string, fuzzy_token, strip_newline};

verus! {

/// How the template of a new project is chosen.
pub enum TemplatePlan {
    /// Only this template is usable: take it without asking.
    Preset(String),
    /// Ask the user to choose among these templates.
    Choose(Vec<String>),
}

/// What the template chooser's answer means.
pub enum TemplateAnswer {
    Chosen(String),
    Search,
    Cancel,
}

/// The templates usable in `category` for a new project.
pub open spec fn usable_types(data: Data, category: Seq<char>) -> Set<Seq<char>> {
    views(data.project_types@).to_set().intersect(data.data.allowed_types(category))
}

/// How to choose the template of a new project in `category`: the only usable
/// one, or a chooser over all usable ones in increasing order.
pub fn plan_template(data: &Data, category: &String) -> (r: TemplatePlan)
    requires
        data.data.wf(),
    ensures
        usable_types(*data, category@).len() == 1 <==> r is Preset,
        r is Preset ==> usable_types(*data, category@) == set![r->Preset_0@],
        r is Choose ==> strictly_sorted(views(r->Choose_0@)) && views(r->Choose_0@).to_set()
            == usable_types(*data, category@),
{
    let types = get_types(data, category);
    proof {
        lemma_strictly_sorted_no_duplicates(views(types@));
        views(types@).unique_seq_to_set();
    }
    if types.len() == 1 {
        proof {
            assert(views(types@).to_set() =~= set![types@[0]@]) by {
                assert(views(types@)[0] == types@[0]@);
            }
        }
        TemplatePlan::Preset(types[0].clone())
    } else {
        TemplatePlan::Choose(types)
    }
}

/// What the template chooser's answer `token` means.
pub fn after_template_menu(token: &String) -> (r: TemplateAnswer)
    ensures
        token@ == canceled_token() ==> r == TemplateAnswer::Cancel,
        token@ == fuzzy_token() ==> r == TemplateAnswer::Search,
        token@ != canceled_token() && token@ != fuzzy_token() ==> r is Chosen && r->Chosen_0@
            == token@,
{
    if *token == canceled_string() {
        TemplateAnswer::Cancel
    } else if *token == fuzzy_string() {
        TemplateAnswer::Search
    } else {
        TemplateAnswer::Chosen(token.clone())
    }
}

/// The template that the matcher's answer names, without its trailing newline;
/// none when the matcher chose nothing.
pub fn after_template_search(matched: &Option<String>) -> (r: Option<String>)
    ensures
        matched is None ==> r is None,
        matched is Some ==> r is Some && r->0@ == if matched->0@.len() > 0 && matched->0@.last()
            == '\n' {
            matched->0@.drop_last()
        } else {
            matched->0@
        },
{
    match matched {
        None => None,
        Some(s) => Some(strip_newline(s)),
    }
}

} // verus!
