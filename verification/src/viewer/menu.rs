//! The application menu, as data, and where a chosen item goes.

use vstd::prelude::*;

use crate::text::same_text;

verus! {

/// An item whose meaning is this application's.
#[derive(Debug, Clone, Copy, PartialEq, Eq, Structural)]
pub enum Action {
    NewWindow,
    Open,
    Export,
    Reload,
    ToggleDark,
}

/// One line of a menu. Everything but an action is the platform's own, so it
/// behaves the way the OS provides it rather than being reimplemented.
#[derive(Debug, Clone, Copy, PartialEq, Eq, Structural)]
pub enum MenuEntry {
    Action(Action),
    Separator,
    CloseWindow,
    Quit,
    Copy,
    SelectAll,
    Minimize,
    Maximize,
    About,
    Services,
    Hide,
    HideOthers,
}

/// Which menu a line stands in.
#[derive(Debug, Clone, Copy, PartialEq, Eq, Structural)]
pub enum MenuTitle {
    /// The application's own, titled by its name.
    Application,
    File,
    Edit,
    View,
    Window,
}

/// One menu of the bar.
#[derive(Debug)]
pub struct MenuGroup {
    pub title: MenuTitle,
    pub items: Vec<MenuEntry>,
}

/// The id an action is known by.
pub open spec fn action_id(a: Action) -> Seq<char> {
    match a {
        Action::NewWindow => "new-window"@,
        Action::Open => "open"@,
        Action::Export => "export"@,
        Action::Reload => "reload"@,
        Action::ToggleDark => "toggle-dark"@,
    }
}

/// The words an action is shown under.
pub open spec fn action_label(a: Action) -> Seq<char> {
    match a {
        Action::NewWindow => "New Window"@,
        Action::Open => "Open…"@,
        Action::Export => "Export…"@,
        Action::Reload => "Reload"@,
        Action::ToggleDark => "Invert Theme"@,
    }
}

/// The keys an action is reached by.
pub open spec fn action_keys(a: Action) -> Seq<char> {
    match a {
        Action::NewWindow => "CmdOrCtrl+N"@,
        Action::Open => "CmdOrCtrl+O"@,
        Action::Export => "CmdOrCtrl+E"@,
        Action::Reload => "CmdOrCtrl+R"@,
        Action::ToggleDark => "CmdOrCtrl+Shift+I"@,
    }
}

impl Action {
    /// The id the frontend recognizes the action by.
    pub fn id(self) -> (r: &'static str)
        ensures
            r@ == action_id(self),
    {
        match self {
            Action::NewWindow => "new-window",
            Action::Open => "open",
            Action::Export => "export",
            Action::Reload => "reload",
            Action::ToggleDark => "toggle-dark",
        }
    }

    /// The words the action is shown under.
    pub fn label(self) -> (r: &'static str)
        ensures
            r@ == action_label(self),
    {
        match self {
            Action::NewWindow => "New Window",
            Action::Open => "Open…",
            Action::Export => "Export…",
            Action::Reload => "Reload",
            Action::ToggleDark => "Invert Theme",
        }
    }

    /// The keys the action is reached by.
    pub fn accelerator(self) -> (r: &'static str)
        ensures
            r@ == action_keys(self),
    {
        match self {
            Action::NewWindow => "CmdOrCtrl+N",
            Action::Open => "CmdOrCtrl+O",
            Action::Export => "CmdOrCtrl+E",
            Action::Reload => "CmdOrCtrl+R",
            Action::ToggleDark => "CmdOrCtrl+Shift+I",
        }
    }
}

/// The words a menu is titled with, given the application's name.
pub open spec fn title_words(t: MenuTitle, app_name: Seq<char>) -> Seq<char> {
    match t {
        MenuTitle::Application => app_name,
        MenuTitle::File => "File"@,
        MenuTitle::Edit => "Edit"@,
        MenuTitle::View => "View"@,
        MenuTitle::Window => "Window"@,
    }
}

impl MenuTitle {
    /// The words the menu is titled with, given the application's name.
    pub fn words(self, app_name: &str) -> (r: String)
        ensures
            r@ == title_words(self, app_name@),
    {
        match self {
            MenuTitle::Application => app_name.to_owned(),
            MenuTitle::File => "File".to_owned(),
            MenuTitle::Edit => "Edit".to_owned(),
            MenuTitle::View => "View".to_owned(),
            MenuTitle::Window => "Window".to_owned(),
        }
    }
}

/// The lines of one menu. Quit stands in the File menu except on macOS,
/// where the application's own menu has it.
pub open spec fn lines_of(t: MenuTitle, macos: bool) -> Seq<MenuEntry> {
    match t {
        MenuTitle::Application => seq![
            MenuEntry::About,
            MenuEntry::Separator,
            MenuEntry::Services,
            MenuEntry::Separator,
            MenuEntry::Hide,
            MenuEntry::HideOthers,
            MenuEntry::Separator,
            MenuEntry::Quit,
        ],
        MenuTitle::File => {
            let shared = seq![
                MenuEntry::Action(Action::NewWindow),
                MenuEntry::Action(Action::Open),
                MenuEntry::Separator,
                MenuEntry::Action(Action::Export),
                MenuEntry::Separator,
                MenuEntry::Action(Action::Reload),
                MenuEntry::Separator,
                MenuEntry::CloseWindow,
            ];
            if macos {
                shared
            } else {
                shared.push(MenuEntry::Quit)
            }
        },
        MenuTitle::Edit => seq![MenuEntry::Copy, MenuEntry::SelectAll],
        MenuTitle::View => seq![MenuEntry::Action(Action::ToggleDark)],
        MenuTitle::Window => seq![
            MenuEntry::Minimize,
            MenuEntry::Maximize,
            MenuEntry::Separator,
            MenuEntry::CloseWindow,
        ],
    }
}

/// The menus of the bar, in order. Only macOS has the application's own.
pub open spec fn bar(macos: bool) -> Seq<MenuTitle> {
    let shared = seq![MenuTitle::File, MenuTitle::Edit, MenuTitle::View, MenuTitle::Window];
    if macos {
        seq![MenuTitle::Application] + shared
    } else {
        shared
    }
}

fn lines(title: MenuTitle, macos: bool) -> (items: Vec<MenuEntry>)
    ensures
        items@ == lines_of(title, macos),
{
    let mut items: Vec<MenuEntry> = Vec::new();
    match title {
        MenuTitle::Application => {
            items.push(MenuEntry::About);
            items.push(MenuEntry::Separator);
            items.push(MenuEntry::Services);
            items.push(MenuEntry::Separator);
            items.push(MenuEntry::Hide);
            items.push(MenuEntry::HideOthers);
            items.push(MenuEntry::Separator);
            items.push(MenuEntry::Quit);
        },
        MenuTitle::File => {
            items.push(MenuEntry::Action(Action::NewWindow));
            items.push(MenuEntry::Action(Action::Open));
            items.push(MenuEntry::Separator);
            items.push(MenuEntry::Action(Action::Export));
            items.push(MenuEntry::Separator);
            items.push(MenuEntry::Action(Action::Reload));
            items.push(MenuEntry::Separator);
            items.push(MenuEntry::CloseWindow);
            if !macos {
                items.push(MenuEntry::Quit);
            }
        },
        MenuTitle::Edit => {
            items.push(MenuEntry::Copy);
            items.push(MenuEntry::SelectAll);
        },
        MenuTitle::View => items.push(MenuEntry::Action(Action::ToggleDark)),
        MenuTitle::Window => {
            items.push(MenuEntry::Minimize);
            items.push(MenuEntry::Maximize);
            items.push(MenuEntry::Separator);
            items.push(MenuEntry::CloseWindow);
        },
    }
    assert(items@ =~= lines_of(title, macos));
    items
}

/// The application menu.
///
/// Closing a window is the platform's own item: with a window per document,
/// closing the window is closing the document, and letting the platform do
/// it is what makes it behave correctly for a tab in a group.
pub fn build_menu(macos: bool) -> (groups: Vec<MenuGroup>)
    ensures
        groups@.len() == bar(macos).len(),
        forall|i: int|
            0 <= i < groups@.len() ==> (#[trigger] groups@[i]).title == bar(macos)[i]
                && groups@[i].items@ == lines_of(bar(macos)[i], macos),
{
    let mut groups: Vec<MenuGroup> = Vec::new();
    if macos {
        groups.push(
            MenuGroup {
                title: MenuTitle::Application,
                items: lines(MenuTitle::Application, macos),
            },
        );
    }
    groups.push(MenuGroup { title: MenuTitle::File, items: lines(MenuTitle::File, macos) });
    groups.push(MenuGroup { title: MenuTitle::Edit, items: lines(MenuTitle::Edit, macos) });
    groups.push(MenuGroup { title: MenuTitle::View, items: lines(MenuTitle::View, macos) });
    groups.push(MenuGroup { title: MenuTitle::Window, items: lines(MenuTitle::Window, macos) });
    groups
}

/// There is exactly one way to quit on every platform.
pub proof fn lemma_one_quit(macos: bool)
    ensures
        lines_of(MenuTitle::File, macos).contains(MenuEntry::Quit) == !macos,
        bar(macos).contains(MenuTitle::Application) == macos,
        lines_of(MenuTitle::Application, macos).contains(MenuEntry::Quit),
        !lines_of(MenuTitle::Edit, macos).contains(MenuEntry::Quit),
        !lines_of(MenuTitle::View, macos).contains(MenuEntry::Quit),
        !lines_of(MenuTitle::Window, macos).contains(MenuEntry::Quit),
{
    assert(lines_of(MenuTitle::Application, macos)[7] == MenuEntry::Quit);
    if macos {
        assert(bar(macos)[0] == MenuTitle::Application);
    } else {
        assert(lines_of(MenuTitle::File, macos)[8] == MenuEntry::Quit);
    }
}

/// Where a chosen item goes.
#[derive(Debug)]
pub enum MenuRoute {
    /// A new empty window.
    OpenWindow,
    /// To this window, which is the one somebody is looking at.
    Send(String),
    /// Nowhere: no window has the focus.
    Nowhere,
}

/// Act on a menu item, or hand it to the focused window.
///
/// Opening a window is done here; everything else is about the document
/// somebody is looking at, so it goes to that window alone. Sending to every
/// window would export every open plot at once.
pub fn dispatch_menu(id: &str, focused: Option<&str>) -> (r: MenuRoute)
    ensures
        if id@ == action_id(Action::NewWindow) {
            r is OpenWindow
        } else {
            match focused {
                Some(label) => r is Send && r->Send_0@ == label@,
                None => r is Nowhere,
            }
        },
{
    if same_text(id, "new-window") {
        return MenuRoute::OpenWindow;
    }
    match focused {
        Some(label) => MenuRoute::Send(label.to_owned()),
        None => MenuRoute::Nowhere,
    }
}

/// No two actions share an id or a shortcut, and every action is on the bar.
pub proof fn lemma_actions_are_told_apart(a: Action, b: Action, macos: bool)
    ensures
        action_id(a) == action_id(b) ==> a == b,
        action_keys(a) == action_keys(b) ==> a == b,
        action_label(a) == action_label(b) ==> a == b,
        exists|t: MenuTitle| #[trigger]
            bar(macos).contains(t) && lines_of(t, macos).contains(MenuEntry::Action(a)),
{
    reveal_strlit("new-window");
    reveal_strlit("open");
    reveal_strlit("export");
    reveal_strlit("reload");
    reveal_strlit("toggle-dark");
    reveal_strlit("CmdOrCtrl+N");
    reveal_strlit("CmdOrCtrl+O");
    reveal_strlit("CmdOrCtrl+E");
    reveal_strlit("CmdOrCtrl+R");
    reveal_strlit("CmdOrCtrl+Shift+I");
    reveal_strlit("New Window");
    reveal_strlit("Open…");
    reveal_strlit("Export…");
    reveal_strlit("Reload");
    reveal_strlit("Invert Theme");
    assert(action_id(a)[0] == action_id(b)[0] && action_id(a).len() == action_id(b).len() ==> a
        == b);
    assert(action_keys(a)[10] == action_keys(b)[10] && action_keys(a).len() == action_keys(b).len()
        ==> a == b);
    assert(action_label(a)[0] == action_label(b)[0] && action_label(a).len() == action_label(
        b,
    ).len() ==> a == b);
    let t = if a == Action::ToggleDark {
        MenuTitle::View
    } else {
        MenuTitle::File
    };
    let shift: int = if macos {
        1
    } else {
        0
    };
    assert(bar(macos)[shift] == MenuTitle::File && bar(macos)[shift + 2] == MenuTitle::View);
    let i: int = match a {
        Action::NewWindow => 0,
        Action::Open => 1,
        Action::Export => 3,
        Action::Reload => 5,
        Action::ToggleDark => 0,
    };
    assert(lines_of(t, macos)[i] == MenuEntry::Action(a));
    assert(bar(macos).contains(t));
}

} // verus!
