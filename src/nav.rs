//! The navigation between categories and projects: what each key means in
//! each chooser, what each chooser lists, and where each outcome leads.
use vstd::prelude::*;
use crate::config::Config;
use crate::names::{sorted_names, strictly_sorted, views};
use crate::text::{concat, copy_of, find_char, strip_prefix, strip_suffix};

verus! {

/// A key read from the terminal.
pub enum KeyPress {
    ArrowDown,
    ArrowUp,
    Enter,
    Escape,
    Char(char),
    Other,
}

/// What a chooser does on a key.
pub enum MenuEvent {
    Up,
    Down,
    Select,
    Return(String),
    Nothing,
}

/// What a key means in the project chooser: an event, or a request to ask the
/// user to confirm deleting the highlighted project.
pub enum ProjectKey {
    Event(MenuEvent),
    ConfirmDelete,
}

/// Where the launcher goes next.
pub enum Step {
    /// Show the category chooser.
    Categories,
    /// Hand every project of every category to the fuzzy matcher.
    SearchAll,
    /// Show the projects of a category.
    Projects(String),
    /// Hand the projects of a category to the fuzzy matcher.
    SearchIn(String),
    /// Delete the directory at this path, then show the categories.
    Remove(String),
    /// Create a project in this category, then stop.
    Create(String),
    /// Open this path in the editor, record it as the last one, then stop.
    Open(String),
    /// Stop.
    Exit,
}

/// The entries of every category's projects, for the matcher over all of them.
pub struct CategoryDirs {
    pub category: String,
    pub dirs: Vec<String>,
}

pub open spec fn back_item() -> Seq<char> {
    seq!['<', '.', '.', '>']
}

pub open spec fn none_item() -> Seq<char> {
    seq!['<', 'N', 'o', 'n', 'e', '>']
}

pub open spec fn canceled_token() -> Seq<char> {
    seq!['<', 'C', 'a', 'n', 'c', 'e', 'l', 'e', 'd', '>']
}

pub open spec fn fuzzy_token() -> Seq<char> {
    seq!['<', 'F', 'u', 'z', 'z', 'y', '-', 'F', 'i', 'n', 'd', 'e', 'r', '>']
}

pub open spec fn create_token() -> Seq<char> {
    seq!['<', 'C', 'r', 'e', 'a', 't', 'e', '>']
}

pub open spec fn delete_tag() -> Seq<char> {
    seq!['<', 'D', 'e', 'l', 'e', 't', 'e', '>']
}

pub open spec fn yes_answer() -> Seq<char> {
    seq!['y']
}

pub fn back_string() -> (r: String)
    ensures
        r@ == back_item(),
{
    let r = copy_of("<..>");
    proof {
        reveal_strlit("<..>");
    }
    assert(r@ =~= back_item());
    r
}

pub fn none_string() -> (r: String)
    ensures
        r@ == none_item(),
{
    let r = copy_of("<None>");
    proof {
        reveal_strlit("<None>");
    }
    assert(r@ =~= none_item());
    r
}

pub fn canceled_string() -> (r: String)
    ensures
        r@ == canceled_token(),
{
    let r = copy_of("<Canceled>");
    proof {
        reveal_strlit("<Canceled>");
    }
    assert(r@ =~= canceled_token());
    r
}

pub fn fuzzy_string() -> (r: String)
    ensures
        r@ == fuzzy_token(),
{
    let r = copy_of("<Fuzzy-Finder>");
    proof {
        reveal_strlit("<Fuzzy-Finder>");
    }
    assert(r@ =~= fuzzy_token());
    r
}

pub fn create_string() -> (r: String)
    ensures
        r@ == create_token(),
{
    let r = copy_of("<Create>");
    proof {
        reveal_strlit("<Create>");
    }
    assert(r@ =~= create_token());
    r
}

pub fn delete_string() -> (r: String)
    ensures
        r@ == delete_tag(),
{
    let r = copy_of("<Delete>");
    proof {
        reveal_strlit("<Delete>");
    }
    assert(r@ =~= delete_tag());
    r
}

pub fn yes_string() -> (r: String)
    ensures
        r@ == yes_answer(),
{
    let r = copy_of("y");
    proof {
        reveal_strlit("y");
    }
    assert(r@ =~= yes_answer());
    r
}

pub open spec fn is_down(key: KeyPress) -> bool {
    key == KeyPress::ArrowDown || key == KeyPress::Char('j')
}

pub open spec fn is_up(key: KeyPress) -> bool {
    key == KeyPress::ArrowUp || key == KeyPress::Char('k')
}

pub open spec fn is_quit(key: KeyPress) -> bool {
    key == KeyPress::Escape || key == KeyPress::Char('q')
}

/// Whether a key is one of the movement keys.
fn movement(key: &KeyPress) -> (r: Option<MenuEvent>)
    ensures
        is_down(*key) ==> r == Some(MenuEvent::Down),
        is_up(*key) ==> r == Some(MenuEvent::Up),
        !is_down(*key) && !is_up(*key) ==> r is None,
{
    match key {
        KeyPress::ArrowDown => Some(MenuEvent::Down),
        KeyPress::Char('j') => Some(MenuEvent::Down),
        KeyPress::ArrowUp => Some(MenuEvent::Up),
        KeyPress::Char('k') => Some(MenuEvent::Up),
        _ => None,
    }
}

/// The meaning of a key in the category chooser, with `highlighted` the
/// highlighted entry: `<None>` cannot be selected.
pub fn category_key(key: &KeyPress, highlighted: &String) -> (r: MenuEvent)
    ensures
        is_down(*key) ==> r == MenuEvent::Down,
        is_up(*key) ==> r == MenuEvent::Up,
        is_quit(*key) ==> r is Return && r->Return_0@ == canceled_token(),
        *key == KeyPress::Char('f') ==> r is Return && r->Return_0@ == fuzzy_token(),
        *key == KeyPress::Enter ==> r == (if highlighted@ == none_item() {
            MenuEvent::Nothing
        } else {
            MenuEvent::Select
        }),
        !is_down(*key) && !is_up(*key) && !is_quit(*key) && *key != KeyPress::Char('f') && *key
            != KeyPress::Enter ==> r == MenuEvent::Nothing,
{
    if let Some(e) = movement(key) {
        return e;
    }
    match key {
        KeyPress::Escape => MenuEvent::Return(canceled_string()),
        KeyPress::Char('q') => MenuEvent::Return(canceled_string()),
        KeyPress::Char('f') => MenuEvent::Return(fuzzy_string()),
        KeyPress::Enter => {
            if *highlighted == none_string() {
                MenuEvent::Nothing
            } else {
                MenuEvent::Select
            }
        },
        _ => MenuEvent::Nothing,
    }
}

/// The meaning of a key in the project chooser, with `highlighted` the
/// highlighted entry. Deleting asks for confirmation, and only for a project.
pub fn project_key(key: &KeyPress, highlighted: &String) -> (r: ProjectKey)
    ensures
        is_down(*key) ==> r == ProjectKey::Event(MenuEvent::Down),
        is_up(*key) ==> r == ProjectKey::Event(MenuEvent::Up),
        is_quit(*key) ==> r is Event && r->Event_0 is Return && r->Event_0->Return_0@
            == back_item(),
        *key == KeyPress::Char('f') ==> r is Event && r->Event_0 is Return
            && r->Event_0->Return_0@ == fuzzy_token(),
        *key == KeyPress::Char('a') ==> r is Event && r->Event_0 is Return
            && r->Event_0->Return_0@ == create_token(),
        *key == KeyPress::Enter ==> r == ProjectKey::Event(
            if highlighted@ == none_item() {
                MenuEvent::Nothing
            } else {
                MenuEvent::Select
            },
        ),
        *key == KeyPress::Char('d') ==> r == (if highlighted@ == none_item() || highlighted@
            == back_item() {
            ProjectKey::Event(MenuEvent::Nothing)
        } else {
            ProjectKey::ConfirmDelete
        }),
        !is_down(*key) && !is_up(*key) && !is_quit(*key) && *key != KeyPress::Char('f') && *key
            != KeyPress::Char('a') && *key != KeyPress::Char('d') && *key != KeyPress::Enter ==> r
            == ProjectKey::Event(MenuEvent::Nothing),
{
    if let Some(e) = movement(key) {
        return ProjectKey::Event(e);
    }
    match key {
        KeyPress::Escape => ProjectKey::Event(MenuEvent::Return(back_string())),
        KeyPress::Char('q') => ProjectKey::Event(MenuEvent::Return(back_string())),
        KeyPress::Char('f') => ProjectKey::Event(MenuEvent::Return(fuzzy_string())),
        KeyPress::Char('a') => ProjectKey::Event(MenuEvent::Return(create_string())),
        KeyPress::Enter => {
            if *highlighted == none_string() {
                ProjectKey::Event(MenuEvent::Nothing)
            } else {
                ProjectKey::Event(MenuEvent::Select)
            }
        },
        KeyPress::Char('d') => {
            if *highlighted == none_string() || *highlighted == back_string() {
                ProjectKey::Event(MenuEvent::Nothing)
            } else {
                ProjectKey::ConfirmDelete
            }
        },
        _ => ProjectKey::Event(MenuEvent::Nothing),
    }
}

/// The answer to "are you sure?" about deleting `project`: only `y` deletes,
/// by returning the project's name behind the delete tag.
pub fn confirm_delete(answer: &String, project: &String) -> (r: MenuEvent)
    ensures
        answer@ == yes_answer() ==> r is Return && r->Return_0@ == delete_tag() + project@,
        answer@ != yes_answer() ==> r == MenuEvent::Nothing,
{
    if *answer == yes_string() {
        MenuEvent::Return(concat(&delete_string(), project))
    } else {
        MenuEvent::Nothing
    }
}

/// The meaning of a key in the template chooser.
pub fn template_key(key: &KeyPress) -> (r: MenuEvent)
    ensures
        is_down(*key) ==> r == MenuEvent::Down,
        is_up(*key) ==> r == MenuEvent::Up,
        is_quit(*key) ==> r is Return && r->Return_0@ == canceled_token(),
        *key == KeyPress::Char('f') ==> r is Return && r->Return_0@ == fuzzy_token(),
        *key == KeyPress::Enter ==> r == MenuEvent::Select,
        !is_down(*key) && !is_up(*key) && !is_quit(*key) && *key != KeyPress::Char('f') && *key
            != KeyPress::Enter ==> r == MenuEvent::Nothing,
{
    if let Some(e) = movement(key) {
        return e;
    }
    match key {
        KeyPress::Escape => MenuEvent::Return(canceled_string()),
        KeyPress::Char('q') => MenuEvent::Return(canceled_string()),
        KeyPress::Char('f') => MenuEvent::Return(fuzzy_string()),
        KeyPress::Enter => MenuEvent::Select,
        _ => MenuEvent::Nothing,
    }
}

/// The entries of the category chooser: the category names in increasing
/// order, or `<None>` alone when there is none.
pub fn category_items(names: &Vec<String>) -> (r: Vec<String>)
    ensures
        names@.len() == 0 ==> views(r@) == seq![none_item()],
        names@.len() > 0 ==> strictly_sorted(views(r@)) && views(r@).no_duplicates() && views(
            r@,
        ).to_set() == views(names@).to_set(),
{
    if names.len() == 0 {
        let r = vec![none_string()];
        assert(views(r@) =~= seq![none_item()]);
        r
    } else {
        sorted_names(names)
    }
}

/// The entries of the project chooser: `<..>`, then the project directories
/// in increasing order, or `<None>` when there is none.
pub fn project_items(dirs: &Vec<String>) -> (r: Vec<String>)
    ensures
        dirs@.len() == 0 ==> views(r@) == seq![back_item(), none_item()],
        dirs@.len() > 0 ==> r@.len() >= 1 && r@[0]@ == back_item() && strictly_sorted(
            views(r@).drop_first(),
        ) && views(r@).drop_first().to_set() == views(dirs@).to_set(),
{
    let mut r = vec![back_string()];
    if dirs.len() == 0 {
        r.push(none_string());
        assert(views(r@) =~= seq![back_item(), none_item()]);
    } else {
        let sorted = sorted_names(dirs);
        let ghost first = r@;
        let mut i: usize = 0;
        while i < sorted.len()
            invariant
                i <= sorted@.len(),
                r@.len() == i + 1,
                r@[0]@ == back_item(),
                views(r@).drop_first() == views(sorted@).subrange(0, i as int),
            decreases sorted@.len() - i,
        {
            let ghost before = r@;
            r.push(sorted[i].clone());
            assert(views(r@).drop_first() =~= views(before).drop_first().push(sorted@[i as int]@));
            assert(views(sorted@).subrange(0, i + 1) =~= views(sorted@).subrange(
                0,
                i as int,
            ).push(sorted@[i as int]@));
            i = i + 1;
        }
        assert(views(sorted@).subrange(0, i as int) =~= views(sorted@));
    }
    r
}

/// The entry for a project in the matcher over all projects: its category, a
/// slash, and its name.
pub open spec fn entry_of(category: Seq<char>, dir: Seq<char>) -> Seq<char> {
    category + seq!['/'] + dir
}

/// The entries of one category's projects, in the order of its directories.
pub open spec fn group_entries(group: CategoryDirs) -> Seq<Seq<char>> {
    group.dirs@.map_values(|d: String| entry_of(group.category@, d@))
}

/// The entries of every category's projects, category by category.
pub open spec fn entries_of(groups: Seq<CategoryDirs>) -> Seq<Seq<char>>
    decreases groups.len(),
{
    if groups.len() == 0 {
        seq![]
    } else {
        entries_of(groups.drop_last()) + group_entries(groups.last())
    }
}

/// The entries for the matcher over all projects, in increasing order.
pub fn all_projects(groups: &Vec<CategoryDirs>) -> (r: Vec<String>)
    ensures
        strictly_sorted(views(r@)),
        views(r@).to_set() == entries_of(groups@).to_set(),
{
    let slash = copy_of("/");
    proof {
        reveal_strlit("/");
    }
    assert(slash@ =~= seq!['/']);
    let mut entries: Vec<String> = Vec::new();
    let mut g: usize = 0;
    while g < groups.len()
        invariant
            g <= groups@.len(),
            slash@ == seq!['/'],
            views(entries@) == entries_of(groups@.subrange(0, g as int)),
        decreases groups@.len() - g,
    {
        let group = &groups[g];
        let prefix = concat(&group.category, &slash);
        let ghost at_start = views(entries@);
        let mut d: usize = 0;
        while d < group.dirs.len()
            invariant
                prefix@ == group.category@ + seq!['/'],
                d <= group.dirs@.len(),
                views(entries@) == at_start + group_entries(*group).subrange(0, d as int),
            decreases group.dirs@.len() - d,
        {
            let ghost before = entries@;
            let e = concat(&prefix, &group.dirs[d]);
            entries.push(e);
            assert(views(entries@) =~= views(before).push(e@));
            assert(group_entries(*group).subrange(0, d + 1) =~= group_entries(*group).subrange(
                0,
                d as int,
            ).push(e@));
            d = d + 1;
        }
        assert(group_entries(*group).subrange(0, d as int) =~= group_entries(*group));
        assert(groups@.subrange(0, g + 1).drop_last() =~= groups@.subrange(0, g as int));
        g = g + 1;
    }
    assert(groups@.subrange(0, g as int) =~= groups@);
    sorted_names(&entries)
}

/// The matcher's answer without its trailing newline.
pub fn strip_newline(s: &String) -> (r: String)
    ensures
        s@.len() > 0 && s@.last() == '\n' ==> r@ == s@.drop_last(),
        !(s@.len() > 0 && s@.last() == '\n') ==> r@ == s@,
{
    let nl = copy_of("\n");
    proof {
        reveal_strlit("\n");
    }
    assert(nl@ =~= seq!['\n']);
    match strip_suffix(s, &nl) {
        Some(t) => {
            assert(s@.subrange(s@.len() - 1, s@.len() as int)[0] == s@.last());
            assert(t@ =~= s@.drop_last());
            t
        },
        None => {
            proof {
                if s@.len() > 0 && s@.last() == '\n' {
                    assert(s@.subrange(s@.len() - 1, s@.len() as int) =~= seq!['\n']);
                }
            }
            s.clone()
        },
    }
}

/// Where the launcher starts: the matcher over all projects when asked to
/// find, else the category chooser.
pub fn start(find: bool) -> (r: Step)
    ensures
        r == (if find {
            Step::SearchAll
        } else {
            Step::Categories
        }),
{
    if find {
        Step::SearchAll
    } else {
        Step::Categories
    }
}

/// Where the category chooser's answer `token` leads.
pub fn after_categories(config: &Config, token: &String) -> (r: Step)
    requires
        config.wf(),
    ensures
        token@ == canceled_token() ==> r == Step::Exit,
        token@ == fuzzy_token() ==> r == Step::SearchAll,
        token@ != canceled_token() && token@ != fuzzy_token() ==> if config.has_category(
            token@,
        ) {
            r is Projects && r->Projects_0@ == token@
        } else {
            r == Step::Categories
        },
{
    if *token == canceled_string() {
        Step::Exit
    } else if *token == fuzzy_string() {
        Step::SearchAll
    } else if config.find_category(token).is_some() {
        Step::Projects(token.clone())
    } else {
        Step::Categories
    }
}

/// Where the project chooser's answer `token` for `category` leads.
pub fn after_projects(config: &Config, category: &String, token: &String) -> (r: Step)
    requires
        config.wf(),
    ensures
        !config.has_category(category@) ==> r == Step::Categories,
        config.has_category(category@) ==> {
            let parent = config.parent_of(category@);
            if token@ == back_item() {
                r == Step::Categories
            } else if token@ == fuzzy_token() {
                r is SearchIn && r->SearchIn_0@ == category@
            } else if token@ == create_token() {
                r is Create && r->Create_0@ == category@
            } else if token@ == none_item() {
                r is Projects && r->Projects_0@ == category@
            } else if delete_tag().len() <= token@.len() && token@.subrange(
                0,
                delete_tag().len() as int,
            ) == delete_tag() {
                let name = token@.subrange(delete_tag().len() as int, token@.len() as int);
                if name.len() == 0 {
                    r == Step::Categories
                } else {
                    r is Remove && r->Remove_0@ == parent + name
                }
            } else {
                r is Open && r->Open_0@ == parent + token@
            }
        },
{
    let index = match config.find_category(category) {
        Some(i) => i,
        None => {
            return Step::Categories;
        },
    };
    if *token == back_string() {
        Step::Categories
    } else if *token == fuzzy_string() {
        Step::SearchIn(category.clone())
    } else if *token == create_string() {
        Step::Create(category.clone())
    } else if *token == none_string() {
        Step::Projects(category.clone())
    } else {
        match strip_prefix(token, &delete_string()) {
            Some(name) => {
                if name.as_str().unicode_len() == 0 {
                    Step::Categories
                } else {
                    Step::Remove(config.project_path(index, &name))
                }
            },
            None => Step::Open(config.project_path(index, token)),
        }
    }
}

/// Where the matcher's answer over all projects leads: the project it names,
/// by category and name, or back to the categories.
pub fn after_search_all(config: &Config, matched: &Option<String>) -> (r: Step)
    requires
        config.wf(),
    ensures
        matched is None ==> r == Step::Categories,
        matched is Some ==> {
            let s = if matched->0@.len() > 0 && matched->0@.last() == '\n' {
                matched->0@.drop_last()
            } else {
                matched->0@
            };
            if s.contains('/') {
                let i = s.index_of_first('/')->0;
                let category = s.subrange(0, i);
                let name = s.subrange(i + 1, s.len() as int);
                if config.has_category(category) {
                    r is Open && r->Open_0@ == config.parent_of(category) + name
                } else {
                    r == Step::Categories
                }
            } else {
                r == Step::Categories
            }
        },
{
    let out = match matched {
        None => {
            return Step::Categories;
        },
        Some(out) => out,
    };
    let s = strip_newline(out);
    match find_char(&s, '/') {
        None => Step::Categories,
        Some(i) => {
            proof {
                s@.index_of_first_ensures('/');
                let j = s@.index_of_first('/')->0;
                if j < i {
                    assert(s@.subrange(0, i as int)[j] == '/');
                }
                if i < j {
                    assert(s@.subrange(0, j)[i as int] == '/');
                }
            }
            let len = s.as_str().unicode_len();
            let category = copy_of(s.as_str().substring_char(0, i));
            let name = copy_of(s.as_str().substring_char(i + 1, len));
            match config.find_category(&category) {
                Some(index) => Step::Open(config.project_path(index, &name)),
                None => Step::Categories,
            }
        },
    }
}

/// Where the matcher's answer over the projects of `category` leads: the
/// project it names, or back to the categories.
pub fn after_search_in(config: &Config, category: &String, matched: &Option<String>) -> (r: Step)
    requires
        config.wf(),
    ensures
        matched is None || !config.has_category(category@) ==> r == Step::Categories,
        matched is Some && config.has_category(category@) ==> {
            let s = if matched->0@.len() > 0 && matched->0@.last() == '\n' {
                matched->0@.drop_last()
            } else {
                matched->0@
            };
            r is Open && r->Open_0@ == config.parent_of(category@) + s
        },
{
    match matched {
        None => Step::Categories,
        Some(out) => match config.find_category(category) {
            None => Step::Categories,
            Some(index) => Step::Open(config.project_path(index, &strip_newline(out))),
        },
    }
}

/// A confirmed deletion reaches the project chooser's caller as the delete
/// tag followed by the project's name. Such an answer is none of the other
/// answers, and is read back as exactly that name, so a non-empty name leads to
/// removing that project and nothing else.
pub proof fn lemma_delete_answer_names_project(name: Seq<char>)
    ensures
        ({
            let t = delete_tag() + name;
            &&& t.subrange(0, delete_tag().len() as int) == delete_tag()
            &&& t.subrange(delete_tag().len() as int, t.len() as int) == name
            &&& t != back_item()
            &&& t != fuzzy_token()
            &&& t != create_token()
            &&& t != none_item()
        }),
{
    let t = delete_tag() + name;
    assert(t.subrange(0, delete_tag().len() as int) =~= delete_tag());
    assert(t.subrange(delete_tag().len() as int, t.len() as int) =~= name);
    assert(t[1] == 'D');
    assert(back_item()[1] == '.');
    assert(fuzzy_token()[1] == 'F');
    assert(create_token()[1] == 'C');
    assert(none_item()[1] == 'N');
}

} // verus!
