//! The settings a launcher works from: categories, editor, library root and the
//! last opened project, with the templates found on disk.
use vstd::prelude::*;
use crate::names::{sorted_names, strictly_sorted, views};
use crate::text::{concat, copy_of, strip_suffix};

verus! {

/// A named group of projects, all of them directories directly under
/// `parent_dir`, that may be created from the templates it permits.
pub struct Category {
    pub name: String,
    pub supported_types: Vec<String>,
    pub parent_dir: String,
}

/// The settings read at each turn of the launcher.
pub struct Config {
    pub editor: String,
    pub last: String,
    pub libraries: String,
    pub categories: Vec<Category>,
}

/// The settings together with the templates found in the scripts directory.
pub struct Data {
    pub data: Config,
    pub project_types: Vec<String>,
}

/// A file of the scripts directory: its name and whether it may be executed.
pub struct ScriptFile {
    pub name: String,
    pub executable: bool,
}

/// The suffix that marks a template script.
pub open spec fn script_suffix() -> Seq<char> {
    seq!['.', 's', 'h']
}

pub fn script_suffix_string() -> (r: String)
    ensures
        r@ == script_suffix(),
{
    let r = copy_of(".sh");
    proof {
        reveal_strlit(".sh");
    }
    assert(r@ =~= script_suffix());
    r
}

impl Category {
    pub open spec fn allowed(&self) -> Set<Seq<char>> {
        views(self.supported_types@).to_set()
    }
}

impl Config {
    /// The names of the categories, in stored order.
    pub open spec fn names(&self) -> Seq<Seq<char>> {
        self.categories@.map_values(|c: Category| c.name@)
    }

    /// No two categories share a name.
    pub open spec fn wf(&self) -> bool {
        self.names().no_duplicates()
    }

    pub open spec fn has_category(&self, name: Seq<char>) -> bool {
        self.names().contains(name)
    }

    /// The templates that the category called `name` permits; none for an
    /// unknown name.
    pub open spec fn allowed_types(&self, name: Seq<char>) -> Set<Seq<char>> {
        if self.has_category(name) {
            self.categories@[self.names().index_of(name)].allowed()
        } else {
            Set::empty()
        }
    }

    /// The directory that holds the projects of the category called `name`.
    pub open spec fn parent_of(&self, name: Seq<char>) -> Seq<char> {
        self.categories@[self.names().index_of(name)].parent_dir@
    }

    /// Where the category called `name` is stored.
    pub fn find_category(&self, name: &String) -> (r: Option<usize>)
        requires
            self.wf(),
        ensures
            r is Some <==> self.has_category(name@),
            r is Some ==> r->0 < self.categories@.len() && self.names().index_of(name@)
                == r->0 as int && self.categories@[r->0 as int].name@ == name@,
    {
        let mut i: usize = 0;
        while i < self.categories.len()
            invariant
                self.wf(),
                i <= self.categories@.len(),
                forall|k: int| 0 <= k < i ==> self.names()[k] != name@,
            decreases self.categories@.len() - i,
        {
            if self.categories[i].name == *name {
                proof {
                    let ns = self.names();
                    assert(ns[i as int] == name@);
                    assert(ns.contains(name@));
                    let k = ns.index_of(name@);
                    assert(0 <= k < ns.len() && ns[k] == name@);
                    assert(ns.index_of(name@) == i as int);
                }
                return Some(i);
            }
            i = i + 1;
        }
        None
    }

    /// The names of the categories, for a listing.
    pub fn category_names(&self) -> (r: Vec<String>)
        ensures
            views(r@) == self.names(),
    {
        let mut r: Vec<String> = Vec::new();
        let mut i: usize = 0;
        while i < self.categories.len()
            invariant
                i <= self.categories@.len(),
                views(r@) == self.names().subrange(0, i as int),
            decreases self.categories@.len() - i,
        {
            let ghost before = r@;
            let n = self.categories[i].name.clone();
            assert(n@ == self.names()[i as int]);
            r.push(n);
            assert(views(r@) =~= views(before).push(n@));
            assert(views(r@) =~= self.names().subrange(0, i + 1));
            i = i + 1;
        }
        assert(self.names().subrange(0, i as int) =~= self.names());
        r
    }

    /// Where a project called `project` of the category at `index` lives: the
    /// category's directory followed by the name.
    pub fn project_path(&self, index: usize, project: &String) -> (r: String)
        requires
            index < self.categories@.len(),
        ensures
            r@ == self.categories@[index as int].parent_dir@ + project@,
    {
        concat(&self.categories[index].parent_dir, project)
    }

    /// Records `path` as the last opened project.
    pub fn record_opened(&mut self, path: String)
        ensures
            final(self).last@ == path@,
            final(self).editor == old(self).editor,
            final(self).libraries == old(self).libraries,
            final(self).categories == old(self).categories,
    {
        self.last = path;
    }
}

/// Whether `v` holds a string equal to `s`.
pub fn contains_string(v: &Vec<String>, s: &String) -> (r: bool)
    ensures
        r == views(v@).contains(s@),
{
    let mut i: usize = 0;
    while i < v.len()
        invariant
            i <= v@.len(),
            forall|k: int| 0 <= k < i ==> views(v@)[k] != s@,
        decreases v@.len() - i,
    {
        if v[i] == *s {
            assert(views(v@)[i as int] == s@);
            return true;
        }
        i = i + 1;
    }
    false
}

/// The templates usable in the category called `category`: those found on disk
/// that the category permits, in increasing order without repeats.
pub fn get_types(data: &Data, category: &String) -> (r: Vec<String>)
    requires
        data.data.wf(),
    ensures
        strictly_sorted(views(r@)),
        views(r@).to_set() == views(data.project_types@).to_set().intersect(
            data.data.allowed_types(category@),
        ),
{
    let ghost allowed = data.data.allowed_types(category@);
    let ghost found = views(data.project_types@);
    let mut kept: Vec<String> = Vec::new();
    match data.data.find_category(category) {
        None => {},
        Some(index) => {
            let supported = &data.data.categories[index].supported_types;
            let mut i: usize = 0;
            while i < data.project_types.len()
                invariant
                    i <= found.len(),
                    found == views(data.project_types@),
                    allowed == views(supported@).to_set(),
                    views(kept@).to_set() == found.subrange(0, i as int).to_set().intersect(
                        allowed,
                    ),
                decreases found.len() - i,
            {
                let t = &data.project_types[i];
                proof {
                    assert(found.subrange(0, i + 1) =~= found.subrange(0, i as int).push(t@));
                    found.subrange(0, i as int).lemma_push_to_set_commute(t@);
                }
                if contains_string(supported, t) {
                    proof {
                        views(kept@).lemma_push_to_set_commute(t@);
                    }
                    let ghost before = kept@;
                    let c = t.clone();
                    kept.push(c);
                    assert(views(kept@) =~= views(before).push(t@));
                    assert(views(kept@).to_set() =~= found.subrange(0, i + 1).to_set().intersect(
                        allowed,
                    ));
                } else {
                    assert(found.subrange(0, i as int).to_set().intersect(allowed) =~= found.subrange(
                        0,
                        i + 1,
                    ).to_set().intersect(allowed));
                }
                i = i + 1;
            }
            assert(found.subrange(0, i as int) =~= found);
        },
    }
    assert(views(kept@).to_set() =~= found.to_set().intersect(allowed));
    sorted_names(&kept)
}

/// The template that a script file offers: its name without the suffix, when
/// it may be executed and carries the suffix.
pub fn template_name(file: &ScriptFile) -> (r: Option<String>)
    ensures
        r is Some <==> (file.executable && file.name@.len() >= 3 && file.name@.subrange(
            file.name@.len() - 3,
            file.name@.len() as int,
        ) == script_suffix()),
        r is Some ==> r->0@ == file.name@.subrange(0, file.name@.len() - 3),
{
    if !file.executable {
        return None;
    }
    strip_suffix(&file.name, &script_suffix_string())
}

/// The templates offered by a sequence of script files, in the order of the files.
pub open spec fn templates_of(files: Seq<ScriptFile>) -> Seq<Seq<char>>
    decreases files.len(),
{
    if files.len() == 0 {
        seq![]
    } else {
        let before = templates_of(files.drop_last());
        match template_name_spec(files.last()) {
            Some(t) => before.push(t),
            None => before,
        }
    }
}

/// The templates offered by the files of the scripts directory, in the order
/// of the files.
pub fn discover_templates(files: &Vec<ScriptFile>) -> (r: Vec<String>)
    ensures
        views(r@) == templates_of(files@),
{
    let mut r: Vec<String> = Vec::new();
    let mut i: usize = 0;
    while i < files.len()
        invariant
            i <= files@.len(),
            views(r@) == templates_of(files@.subrange(0, i as int)),
        decreases files@.len() - i,
    {
        assert(files@.subrange(0, i + 1).drop_last() =~= files@.subrange(0, i as int));
        let named = template_name(&files[i]);
        match named {
            Some(t) => {
                let ghost before = r@;
                r.push(t);
                assert(views(r@) =~= views(before).push(t@));
            },
            None => {},
        }
        i = i + 1;
    }
    assert(files@.subrange(0, i as int) =~= files@);
    r
}

/// What `template_name` gives for a file.
pub open spec fn template_name_spec(file: ScriptFile) -> Option<Seq<char>> {
    if file.executable && file.name@.len() >= 3 && file.name@.subrange(
        file.name@.len() - 3,
        file.name@.len() as int,
    ) == script_suffix() {
        Some(file.name@.subrange(0, file.name@.len() - 3))
    } else {
        None
    }
}

/// The script file of a template: its name followed by the suffix.
pub fn script_file(template: &String) -> (r: String)
    ensures
        r@ == template@ + script_suffix(),
{
    concat(template, &script_suffix_string())
}

} // verus!
