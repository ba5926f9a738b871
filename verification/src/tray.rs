//! What the tray does when one of its menu items or its icon is clicked, and
//! what an error dialog shows.

use vstd::prelude::*;
use crate::errors::{error_message, AppErrors};
use crate::config::{Cmd, Navigation};
use crate::menu::{command_entry_of, navigation_entry_of, MenuEntry, MenuIdView, MenuItemIds, CMD};
use crate::text::{join2, to_uppercase, uppercase};

verus! {

/// Identifier of the tray icon.
pub const TRAY_ID: &'static str = "tray-id";

/// The error text when the configuration directory cannot be opened.
pub const OPEN_CONFIG_FAILURE: &'static str = "Failed to open the configuration directory.";

/// The title of the dialog shown when the configuration cannot be read at start-up.
pub const CONFIG_FAILURE_TITLE: &'static str = "Failed to retrieve configuration";

/// What a click on a menu item asks for.
#[derive(Debug, Clone, PartialEq, Eq)]
pub enum TrayAction {
    CloseApp,
    OpenConfigDirectory,
    ReloadConfig,
    ShowView,
    HideView,
    OpenUrl(String),
    ExecuteCommand { id: String, cmd: String },
}

/// What a click on a menu item asks for, with the title of the dialog that
/// reports its failure.
#[derive(Debug, Clone, PartialEq, Eq)]
pub struct TrayTask {
    pub title: String,
    pub action: TrayAction,
}

/// The action for a clicked item and the title of its error dialog; submenus
/// ask for nothing.
pub open spec fn menu_event_spec(id: MenuIdView) -> Option<(Seq<char>, TrayActionView)> {
    match id {
        MenuIdView::Quit => Some(("Close Application"@, TrayActionView::CloseApp)),
        MenuIdView::Config => Some(("Open Configuration Directory"@, TrayActionView::OpenConfigDirectory)),
        MenuIdView::ReloadConfig => Some(("Reload Configuration"@, TrayActionView::ReloadConfig)),
        MenuIdView::ShowView => Some(("Show View"@, TrayActionView::ShowView)),
        MenuIdView::HideView => Some(("Hide View"@, TrayActionView::HideView)),
        MenuIdView::Open { id: _, url } => Some(("Open "@ + url, TrayActionView::OpenUrl(url))),
        MenuIdView::Cmd { id, cmd } => Some(("Execute Command"@, TrayActionView::ExecuteCommand { id, cmd })),
        MenuIdView::Navigations => None,
        MenuIdView::Commands => None,
        MenuIdView::CommandGroup(_) => None,
    }
}

pub ghost enum TrayActionView {
    CloseApp,
    OpenConfigDirectory,
    ReloadConfig,
    ShowView,
    HideView,
    OpenUrl(Seq<char>),
    ExecuteCommand { id: Seq<char>, cmd: Seq<char> },
}

impl View for TrayAction {
    type V = TrayActionView;

    open spec fn view(&self) -> TrayActionView {
        match self {
            TrayAction::CloseApp => TrayActionView::CloseApp,
            TrayAction::OpenConfigDirectory => TrayActionView::OpenConfigDirectory,
            TrayAction::ReloadConfig => TrayActionView::ReloadConfig,
            TrayAction::ShowView => TrayActionView::ShowView,
            TrayAction::HideView => TrayActionView::HideView,
            TrayAction::OpenUrl(u) => TrayActionView::OpenUrl(u@),
            TrayAction::ExecuteCommand { id, cmd } => TrayActionView::ExecuteCommand { id: id@, cmd: cmd@ },
        }
    }
}

/// What a click on the item `id` asks for.
pub fn menu_event_task(id: MenuItemIds) -> (r: Option<TrayTask>)
    ensures
        match menu_event_spec(id@) {
            Some(t) => r matches Some(task) && task.title@ == t.0 && task.action@ == t.1,
            None => r is None,
        },
{
    match id {
        MenuItemIds::Quit => Some(TrayTask { title: "Close Application".to_owned(), action: TrayAction::CloseApp }),
        MenuItemIds::Config => Some(
            TrayTask { title: "Open Configuration Directory".to_owned(), action: TrayAction::OpenConfigDirectory },
        ),
        MenuItemIds::ReloadConfig => Some(
            TrayTask { title: "Reload Configuration".to_owned(), action: TrayAction::ReloadConfig },
        ),
        MenuItemIds::ShowView => Some(TrayTask { title: "Show View".to_owned(), action: TrayAction::ShowView }),
        MenuItemIds::HideView => Some(TrayTask { title: "Hide View".to_owned(), action: TrayAction::HideView }),
        MenuItemIds::Open { id: _, url } => {
            let title = join2("Open ", url.as_str());
            Some(TrayTask { title, action: TrayAction::OpenUrl(url) })
        },
        MenuItemIds::Cmd { id, cmd } => Some(
            TrayTask { title: "Execute Command".to_owned(), action: TrayAction::ExecuteCommand { id, cmd } },
        ),
        MenuItemIds::Navigations => None,
        MenuItemIds::Commands => None,
        MenuItemIds::CommandGroup(_) => None,
    }
}

/// A click on the item `id` asks for `a`.
pub open spec fn asks(id: MenuIdView, a: TrayActionView) -> bool {
    menu_event_spec(id) matches Some(t) && t.1 == a
}

/// A click asks for the action of the item clicked and of no other: the show
/// item, and only it, asks to show the window; the hide item, and only it, to
/// hide it; likewise the quit, configuration and reload items; a link asks to
/// open its own url and a command item to run its own command; submenus ask
/// for nothing.
pub proof fn lemma_click_asks_for_own_action(id: MenuIdView)
    ensures
        asks(id, TrayActionView::ShowView) <==> id == MenuIdView::ShowView,
        asks(id, TrayActionView::HideView) <==> id == MenuIdView::HideView,
        asks(id, TrayActionView::CloseApp) <==> id == MenuIdView::Quit,
        asks(id, TrayActionView::OpenConfigDirectory) <==> id == MenuIdView::Config,
        asks(id, TrayActionView::ReloadConfig) <==> id == MenuIdView::ReloadConfig,
        forall|u: Seq<char>|
            #[trigger] asks(id, TrayActionView::OpenUrl(u)) <==> (id matches MenuIdView::Open { id: _, url } && url == u),
        forall|i: Seq<char>, c: Seq<char>|
            #[trigger] asks(id, TrayActionView::ExecuteCommand { id: i, cmd: c }) <==> id == (MenuIdView::Cmd {
                id: i,
                cmd: c,
            }),
        menu_event_spec(id) is None <==> (id is Navigations || id is Commands || id is CommandGroup),
{
}

/// A click on the item built for a web page asks to open that page's url.
pub proof fn lemma_navigation_click_opens_its_url(e: MenuEntry, n: Navigation, home: Seq<char>)
    requires
        navigation_entry_of(e, n, home),
    ensures
        asks(e.id@, TrayActionView::OpenUrl(n.url@)),
{
}

/// A click on the item built for a command asks to run that command's text.
pub proof fn lemma_command_click_runs_its_text(e: MenuEntry, c: Cmd)
    requires
        command_entry_of(e, c),
    ensures
        asks(e.id@, TrayActionView::ExecuteCommand { id: CMD@ + c.name@, cmd: c.cmd@ }),
{
}

/// The shell command that opens a directory.
pub fn open_directory_command(path: &str) -> (r: String)
    ensures
        r@ == "open "@ + path@,
{
    join2("open ", path)
}

/// The title and the message of the dialog that reports `e`, raised by the
/// task titled `title`.
pub fn error_dialog(title: &str, e: &AppErrors) -> (r: (String, String))
    ensures
        r.0@ == uppercase(title@),
        r.1@ == error_message(e@),
{
    (to_uppercase(title), e.message())
}

/// The title and the message of the dialog shown when the configuration
/// cannot be read at start-up.
pub fn startup_error_dialog(e: &AppErrors) -> (r: (String, String))
    ensures
        r.0@ == uppercase(CONFIG_FAILURE_TITLE@),
        r.1@ == "👉 "@ + error_message(e@),
{
    let message = e.message();
    (to_uppercase(CONFIG_FAILURE_TITLE), join2("👉 ", message.as_str()))
}

/// What a click on the tray icon does to the window.
#[derive(Debug, Clone, PartialEq, Eq)]
pub enum WindowAction {
    Show,
    Hide,
}

/// A click of the left button toggles the window; other events do nothing.
pub fn icon_click_action(is_left_click: bool, visible: bool) -> (r: Option<WindowAction>)
    ensures
        !is_left_click ==> r is None,
        is_left_click && visible ==> r matches Some(WindowAction::Hide),
        is_left_click && !visible ==> r matches Some(WindowAction::Show),
{
    if is_left_click {
        if visible {
            Some(WindowAction::Hide)
        } else {
            Some(WindowAction::Show)
        }
    } else {
        None
    }
}

} // verus!
