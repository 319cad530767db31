use prmn::config::{get_types, Category, Config, Data, ScriptFile, discover_templates, template_name, script_file};
use prmn::create::{plan_template, after_template_menu, after_template_search, TemplatePlan, TemplateAnswer};
use prmn::names::{precedes, sorted_names};
use prmn::nav::{
    after_categories, after_projects, after_search_all, after_search_in, all_projects,
    category_items, category_key, confirm_delete, project_items, project_key, start,
    strip_newline, template_key, CategoryDirs, KeyPress, MenuEvent, ProjectKey, Step,
};

fn strings(v: &[&str]) -> Vec<String> {
    v.iter().map(|s| s.to_string()).collect()
}

fn category(name: &str, parent: &str, types: &[&str]) -> Category {
    Category { name: name.to_string(), supported_types: strings(types), parent_dir: parent.to_string() }
}

fn web_config() -> Config {
    Config {
        editor: "vim".to_string(),
        last: String::new(),
        libraries: "/lib".to_string(),
        categories: vec![category("web", "/p/web/", &["node"])],
    }
}

fn two_categories() -> Config {
    Config {
        editor: "vim".to_string(),
        last: String::new(),
        libraries: "/lib".to_string(),
        categories: vec![
            category("web", "/p/web/", &["node", "deno", "bun"]),
            category("cli", "/p/cli/", &["rust"]),
        ],
    }
}

fn returned(e: &MenuEvent) -> Option<String> {
    match e {
        MenuEvent::Return(s) => Some(s.clone()),
        _ => None,
    }
}

fn opened(s: &Step) -> Option<String> {
    match s {
        Step::Open(p) => Some(p.clone()),
        _ => None,
    }
}

#[test]
fn precedes_orders_by_characters_then_length() {
    assert!(precedes(&"abc".to_string(), &"abd".to_string()));
    assert!(!precedes(&"abd".to_string(), &"abc".to_string()));
    assert!(precedes(&"ab".to_string(), &"abc".to_string()));
    assert!(!precedes(&"abc".to_string(), &"abc".to_string()));
    assert!(precedes(&"Zeta".to_string(), &"alpha".to_string()));
}

#[test]
fn sorted_names_sorts_and_drops_repeats() {
    let r = sorted_names(&strings(&["web", "cli", "web", "assets"]));
    assert_eq!(r, strings(&["assets", "cli", "web"]));
}

#[test]
fn category_listing_is_sorted_without_repeats() {
    let r = category_items(&strings(&["web", "cli", "games", "api"]));
    assert_eq!(r, strings(&["api", "cli", "games", "web"]));
}

#[test]
fn category_listing_of_nothing_is_the_sentinel() {
    assert_eq!(category_items(&vec![]), strings(&["<None>"]));
}

#[test]
fn project_listing_of_an_empty_category() {
    assert_eq!(project_items(&vec![]), strings(&["<..>", "<None>"]));
}

#[test]
fn project_listing_starts_with_back() {
    let r = project_items(&strings(&["zeta", "blog", "alpha"]));
    assert_eq!(r, strings(&["<..>", "alpha", "blog", "zeta"]));
}

#[test]
fn selecting_none_never_moves() {
    let none = "<None>".to_string();
    assert!(matches!(project_key(&KeyPress::Enter, &none), ProjectKey::Event(MenuEvent::Nothing)));
    assert!(matches!(category_key(&KeyPress::Enter, &none), MenuEvent::Nothing));
    let s = after_projects(&web_config(), &"web".to_string(), &none);
    assert!(matches!(s, Step::Projects(ref c) if c == "web"));
}

#[test]
fn back_returns_to_categories() {
    let s = after_projects(&web_config(), &"web".to_string(), &"<..>".to_string());
    assert!(matches!(s, Step::Categories));
    let e = project_key(&KeyPress::Char('q'), &"blog".to_string());
    match e {
        ProjectKey::Event(ev) => assert_eq!(returned(&ev), Some("<..>".to_string())),
        _ => panic!("expected an event"),
    }
}

#[test]
fn web_blog_scenario() {
    let mut config = web_config();
    let items = category_items(&config.category_names());
    assert_eq!(items, strings(&["web"]));
    let step = after_categories(&config, &"web".to_string());
    assert!(matches!(step, Step::Projects(ref c) if c == "web"));
    assert_eq!(project_items(&strings(&["blog"])), strings(&["<..>", "blog"]));
    assert!(matches!(project_key(&KeyPress::Enter, &"blog".to_string()), ProjectKey::Event(MenuEvent::Select)));
    let step = after_projects(&config, &"web".to_string(), &"blog".to_string());
    let path = opened(&step).unwrap();
    assert_eq!(path, "/p/web/blog");
    config.record_opened(path);
    assert_eq!(config.last, "/p/web/blog");
    assert_eq!(config.editor, "vim");
}

#[test]
fn delete_needs_a_yes() {
    let blog = "blog".to_string();
    assert!(matches!(project_key(&KeyPress::Char('d'), &blog), ProjectKey::ConfirmDelete));
    assert!(matches!(project_key(&KeyPress::Char('d'), &"<..>".to_string()), ProjectKey::Event(MenuEvent::Nothing)));
    assert!(matches!(project_key(&KeyPress::Char('d'), &"<None>".to_string()), ProjectKey::Event(MenuEvent::Nothing)));
    let yes = confirm_delete(&"y".to_string(), &blog);
    let token = returned(&yes).unwrap();
    assert_eq!(token, "<Delete>blog");
    let s = after_projects(&web_config(), &"web".to_string(), &token);
    assert!(matches!(s, Step::Remove(ref p) if p == "/p/web/blog"));
    assert!(matches!(confirm_delete(&"n".to_string(), &blog), MenuEvent::Nothing));
    assert!(matches!(confirm_delete(&"yes".to_string(), &blog), MenuEvent::Nothing));
    let s = after_projects(&web_config(), &"web".to_string(), &"<Delete>".to_string());
    assert!(matches!(s, Step::Categories));
}

#[test]
fn project_chooser_other_answers() {
    let c = web_config();
    let web = "web".to_string();
    assert!(matches!(after_projects(&c, &web, &"<Create>".to_string()), Step::Create(ref x) if x == "web"));
    assert!(matches!(after_projects(&c, &web, &"<Fuzzy-Finder>".to_string()), Step::SearchIn(ref x) if x == "web"));
    assert!(matches!(after_projects(&c, &"games".to_string(), &"blog".to_string()), Step::Categories));
    match project_key(&KeyPress::Char('a'), &"blog".to_string()) {
        ProjectKey::Event(ev) => assert_eq!(returned(&ev), Some("<Create>".to_string())),
        _ => panic!("expected an event"),
    }
}

#[test]
fn category_chooser_answers() {
    let c = two_categories();
    assert!(matches!(after_categories(&c, &"<Canceled>".to_string()), Step::Exit));
    assert!(matches!(after_categories(&c, &"<Fuzzy-Finder>".to_string()), Step::SearchAll));
    assert!(matches!(after_categories(&c, &"cli".to_string()), Step::Projects(ref x) if x == "cli"));
    assert!(matches!(after_categories(&c, &"<None>".to_string()), Step::Categories));
    assert!(matches!(start(true), Step::SearchAll));
    assert!(matches!(start(false), Step::Categories));
}

#[test]
fn category_keys() {
    let h = "web".to_string();
    assert!(matches!(category_key(&KeyPress::Char('j'), &h), MenuEvent::Down));
    assert!(matches!(category_key(&KeyPress::ArrowUp, &h), MenuEvent::Up));
    assert!(matches!(category_key(&KeyPress::Enter, &h), MenuEvent::Select));
    assert!(matches!(category_key(&KeyPress::Char('x'), &h), MenuEvent::Nothing));
    assert_eq!(returned(&category_key(&KeyPress::Escape, &h)), Some("<Canceled>".to_string()));
    assert_eq!(returned(&category_key(&KeyPress::Char('f'), &h)), Some("<Fuzzy-Finder>".to_string()));
    assert_eq!(returned(&template_key(&KeyPress::Char('q'))), Some("<Canceled>".to_string()));
    assert!(matches!(template_key(&KeyPress::Enter), MenuEvent::Select));
}

#[test]
fn search_over_all_projects() {
    let c = two_categories();
    let s = after_search_all(&c, &Some("cli/tool\n".to_string()));
    assert_eq!(opened(&s), Some("/p/cli/tool".to_string()));
    assert!(matches!(after_search_all(&c, &None), Step::Categories));
    assert!(matches!(after_search_all(&c, &Some("nowhere/tool\n".to_string())), Step::Categories));
    assert!(matches!(after_search_all(&c, &Some("noslash".to_string())), Step::Categories));
    let s = after_search_in(&c, &"web".to_string(), &Some("blog\n".to_string()));
    assert_eq!(opened(&s), Some("/p/web/blog".to_string()));
    assert!(matches!(after_search_in(&c, &"web".to_string(), &None), Step::Categories));
}

#[test]
fn global_listing_joins_category_and_name() {
    let groups = vec![
        CategoryDirs { category: "web".to_string(), dirs: strings(&["blog", "app"]) },
        CategoryDirs { category: "cli".to_string(), dirs: strings(&["tool"]) },
    ];
    assert_eq!(all_projects(&groups), strings(&["cli/tool", "web/app", "web/blog"]));
}

#[test]
fn strip_newline_drops_one_newline() {
    assert_eq!(strip_newline(&"blog\n".to_string()), "blog");
    assert_eq!(strip_newline(&"blog".to_string()), "blog");
    assert_eq!(strip_newline(&"".to_string()), "");
}

#[test]
fn types_are_the_sorted_intersection() {
    let data = Data { data: two_categories(), project_types: strings(&["node", "rust", "bun", "python"]) };
    assert_eq!(get_types(&data, &"web".to_string()), strings(&["bun", "node"]));
    assert_eq!(get_types(&data, &"cli".to_string()), strings(&["rust"]));
    assert_eq!(get_types(&data, &"games".to_string()), Vec::<String>::new());
}

#[test]
fn one_template_is_taken_without_asking() {
    let data = Data { data: two_categories(), project_types: strings(&["node", "rust", "bun", "python"]) };
    assert!(matches!(plan_template(&data, &"cli".to_string()), TemplatePlan::Preset(ref t) if t == "rust"));
    match plan_template(&data, &"web".to_string()) {
        TemplatePlan::Choose(v) => assert_eq!(v, strings(&["bun", "node"])),
        _ => panic!("expected a chooser"),
    }
}

#[test]
fn template_answers() {
    assert!(matches!(after_template_menu(&"<Canceled>".to_string()), TemplateAnswer::Cancel));
    assert!(matches!(after_template_menu(&"<Fuzzy-Finder>".to_string()), TemplateAnswer::Search));
    assert!(matches!(after_template_menu(&"node".to_string()), TemplateAnswer::Chosen(ref t) if t == "node"));
    assert_eq!(after_template_search(&Some("node\n".to_string())), Some("node".to_string()));
    assert_eq!(after_template_search(&None), None);
}

#[test]
fn templates_come_from_executable_scripts() {
    let f = |n: &str, x: bool| ScriptFile { name: n.to_string(), executable: x };
    assert_eq!(template_name(&f("node.sh", true)), Some("node".to_string()));
    assert_eq!(template_name(&f("node.sh", false)), None);
    assert_eq!(template_name(&f("readme.md", true)), None);
    assert_eq!(template_name(&f(".sh", true)), Some(String::new()));
    let files = vec![f("rust.sh", true), f("notes.txt", true), f("go.sh", false), f("bun.sh", true)];
    assert_eq!(discover_templates(&files), strings(&["rust", "bun"]));
    assert_eq!(script_file(&"node".to_string()), "node.sh");
}
