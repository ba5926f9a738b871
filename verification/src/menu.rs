//! The tray menu: the identifiers of its items (written as text and read
//! back when an item is clicked), the entries built from the configuration,
//! and the positions at which the menu is edited.

use vstd::prelude::*;
use crate::config::{Cmd, Command, Navigation, get_config_icons_path, ICONS_DIR, WF_APP_DIR};
use crate::text::{
    contains, first_field, first_part, has_prefix, join2, join3, lemma_first_field_absent,
    lemma_first_match_at, lemma_replace_absent, lemma_replace_leading, replace, replace_all,
    same_text, split_first, split_once, starts_with, to_uppercase, uppercase,
};

verus! {

pub const QUIT: &'static str = "Quit";
pub const CONFIG: &'static str = "Config";
pub const RELOAD: &'static str = "ReloadConfig";
pub const NAVIGATIONS: &'static str = "Navigations";
pub const COMMANDS: &'static str = "Commands";
pub const COMMAND_GROUP: &'static str = "CommandGroup_";
pub const OPEN: &'static str = "Open_";
pub const CMD: &'static str = "Cmd_";
pub const SEPARATOR: &'static str = "||";
pub const SHOW_VIEW: &'static str = "show_view";
pub const HIDE_VIEW: &'static str = "hide_view";

pub const QUIT_TEXT: &'static str = "📴 Close app";
pub const CONFIG_TEXT: &'static str = "⚙️ Open configuration";
pub const RELOAD_CONFIG_TEXT: &'static str = "🔄 Reload configuration";
pub const NAVIGATIONS_TEXT: &'static str = "📂 Navigations ";
pub const COMMANDS_TEXT: &'static str = "📂 Commands ";
pub const SHOW_VIEW_TEXT: &'static str = "👀 Show the view";
pub const HIDE_VIEW_TEXT: &'static str = "🙈 Hide the view";

/// An identifier text with its prefix.
#[derive(PartialEq, PartialOrd)]
pub struct PrefixedId(String);

/// What a menu item stands for.  The identifier of an item is the text that
/// `to_id_string` writes; a click hands that text back to `from_id`.
#[derive(Debug, Clone, PartialEq, Eq, PartialOrd)]
pub enum MenuItemIds {
    Quit,
    Config,
    ReloadConfig,
    Navigations,
    Commands,
    CommandGroup(String),
    ShowView,
    HideView,
    Open { id: String, url: String },
    Cmd { id: String, cmd: String },
}

pub ghost enum MenuIdView {
    Quit,
    Config,
    ReloadConfig,
    Navigations,
    Commands,
    CommandGroup(Seq<char>),
    ShowView,
    HideView,
    Open { id: Seq<char>, url: Seq<char> },
    Cmd { id: Seq<char>, cmd: Seq<char> },
}

impl View for MenuItemIds {
    type V = MenuIdView;

    open spec fn view(&self) -> MenuIdView {
        match self {
            MenuItemIds::Quit => MenuIdView::Quit,
            MenuItemIds::Config => MenuIdView::Config,
            MenuItemIds::ReloadConfig => MenuIdView::ReloadConfig,
            MenuItemIds::Navigations => MenuIdView::Navigations,
            MenuItemIds::Commands => MenuIdView::Commands,
            MenuItemIds::CommandGroup(n) => MenuIdView::CommandGroup(n@),
            MenuItemIds::ShowView => MenuIdView::ShowView,
            MenuItemIds::HideView => MenuIdView::HideView,
            MenuItemIds::Open { id, url } => MenuIdView::Open { id: id@, url: url@ },
            MenuItemIds::Cmd { id, cmd } => MenuIdView::Cmd { id: id@, cmd: cmd@ },
        }
    }
}

/// The identifier text of a menu item.
pub open spec fn id_text(v: MenuIdView) -> Seq<char> {
    match v {
        MenuIdView::Quit => QUIT@,
        MenuIdView::Config => CONFIG@,
        MenuIdView::ReloadConfig => RELOAD@,
        MenuIdView::Navigations => NAVIGATIONS@,
        MenuIdView::Commands => COMMANDS@,
        MenuIdView::CommandGroup(name) => COMMAND_GROUP@ + name,
        MenuIdView::ShowView => SHOW_VIEW@,
        MenuIdView::HideView => HIDE_VIEW@,
        MenuIdView::Open { id, url } => id + SEPARATOR@ + url,
        MenuIdView::Cmd { id, cmd } => id + SEPARATOR@ + cmd,
    }
}

/// The item that an identifier text stands for: the fixed identifiers by
/// name; `Open_…` and `Cmd_…` identifiers split at the first `||`, the prefix
/// removed from the part before it and the part after it kept up to the next
/// `||`; `CommandGroup_…` identifiers with the prefix removed.  `None` for
/// any other text, and for `Open_`/`Cmd_` identifiers without `||`.
pub open spec fn parse_id(s: Seq<char>) -> Option<MenuIdView> {
    if s == QUIT@ {
        Some(MenuIdView::Quit)
    } else if s == CONFIG@ {
        Some(MenuIdView::Config)
    } else if s == RELOAD@ {
        Some(MenuIdView::ReloadConfig)
    } else if s == NAVIGATIONS@ {
        Some(MenuIdView::Navigations)
    } else if s == COMMANDS@ {
        Some(MenuIdView::Commands)
    } else if s == SHOW_VIEW@ {
        Some(MenuIdView::ShowView)
    } else if s == HIDE_VIEW@ {
        Some(MenuIdView::HideView)
    } else if starts_with(s, OPEN@) {
        match split_first(s, SEPARATOR@) {
            Some(parts) => Some(
                MenuIdView::Open {
                    id: replace_all(parts.0, OPEN@, Seq::empty()),
                    url: first_field(parts.1, SEPARATOR@),
                },
            ),
            None => None,
        }
    } else if starts_with(s, CMD@) {
        match split_first(s, SEPARATOR@) {
            Some(parts) => Some(
                MenuIdView::Cmd {
                    id: replace_all(parts.0, CMD@, Seq::empty()),
                    cmd: first_field(parts.1, SEPARATOR@),
                },
            ),
            None => None,
        }
    } else if starts_with(s, COMMAND_GROUP@) {
        Some(MenuIdView::CommandGroup(replace_all(s, COMMAND_GROUP@, Seq::empty())))
    } else {
        None
    }
}

impl MenuItemIds {
    /// The identifier text of this item.
    pub fn to_id_string(&self) -> (r: String)
        ensures
            r@ == id_text(self@),
    {
        match self {
            MenuItemIds::Quit => QUIT.to_owned(),
            MenuItemIds::Config => CONFIG.to_owned(),
            MenuItemIds::ReloadConfig => RELOAD.to_owned(),
            MenuItemIds::Navigations => NAVIGATIONS.to_owned(),
            MenuItemIds::Commands => COMMANDS.to_owned(),
            MenuItemIds::CommandGroup(name) => join2(COMMAND_GROUP, name.as_str()),
            MenuItemIds::ShowView => SHOW_VIEW.to_owned(),
            MenuItemIds::HideView => HIDE_VIEW.to_owned(),
            MenuItemIds::Open { id, url } => join3(id.as_str(), SEPARATOR, url.as_str()),
            MenuItemIds::Cmd { id, cmd } => join3(id.as_str(), SEPARATOR, cmd.as_str()),
        }
    }

    /// Whether `id` is an identifier text that `from_id` reads.
    pub fn is_valid_id(id: &str) -> (r: bool)
        ensures
            r == parse_id(id@) is Some,
    {
        if same_text(id, QUIT) || same_text(id, CONFIG) || same_text(id, RELOAD) || same_text(
            id,
            NAVIGATIONS,
        ) || same_text(id, COMMANDS) || same_text(id, SHOW_VIEW) || same_text(id, HIDE_VIEW) {
            true
        } else if has_prefix(id, OPEN) || has_prefix(id, CMD) {
            split_once(id, SEPARATOR).is_some()
        } else {
            has_prefix(id, COMMAND_GROUP)
        }
    }

    /// The item that an identifier text stands for.
    pub fn from_id(id: &str) -> (r: MenuItemIds)
        requires
            parse_id(id@) is Some,
        ensures
            parse_id(id@) == Some(r@),
    {
        if same_text(id, QUIT) {
            MenuItemIds::Quit
        } else if same_text(id, CONFIG) {
            MenuItemIds::Config
        } else if same_text(id, RELOAD) {
            MenuItemIds::ReloadConfig
        } else if same_text(id, NAVIGATIONS) {
            MenuItemIds::Navigations
        } else if same_text(id, COMMANDS) {
            MenuItemIds::Commands
        } else if same_text(id, SHOW_VIEW) {
            MenuItemIds::ShowView
        } else if same_text(id, HIDE_VIEW) {
            MenuItemIds::HideView
        } else if has_prefix(id, OPEN) {
            let (head, rest) = split_once(id, SEPARATOR).unwrap();
            let open_id = replace(head.as_str(), OPEN, "");
            let url = first_part(rest.as_str(), SEPARATOR);
            proof {
                reveal_strlit("");
                assert(""@ =~= Seq::<char>::empty());
            }
            MenuItemIds::Open { id: open_id, url }
        } else if has_prefix(id, CMD) {
            let (head, rest) = split_once(id, SEPARATOR).unwrap();
            let cmd_id = replace(head.as_str(), CMD, "");
            let cmd = first_part(rest.as_str(), SEPARATOR);
            proof {
                reveal_strlit("");
                assert(""@ =~= Seq::<char>::empty());
            }
            MenuItemIds::Cmd { id: cmd_id, cmd }
        } else {
            let name = replace(id, COMMAND_GROUP, "");
            proof {
                reveal_strlit("");
                assert(""@ =~= Seq::<char>::empty());
            }
            MenuItemIds::CommandGroup(name)
        }
    }
}

/// The identifier of the navigation item for a web page.
pub open spec fn navigation_item_id(name: Seq<char>, url: Seq<char>) -> MenuIdView {
    MenuIdView::Open { id: OPEN@ + name, url }
}

/// The identifier of the menu item for a command.
pub open spec fn command_item_id(name: Seq<char>, cmd: Seq<char>) -> MenuIdView {
    MenuIdView::Cmd { id: CMD@ + name, cmd }
}

/// `s` ends with the character `c`.
pub open spec fn ends_with_char(s: Seq<char>, c: char) -> bool {
    s.len() > 0 && s.last() == c
}

proof fn lemma_item_id_split(prefix: Seq<char>, name: Seq<char>, tail: Seq<char>)
    requires
        forall|k: int| 0 <= k < prefix.len() ==> prefix[k] != '|',
        !contains(name, SEPARATOR@),
        !ends_with_char(name, '|'),
    ensures
        split_first(prefix + name + SEPARATOR@ + tail, SEPARATOR@) == Some((prefix + name, tail)),
{
    reveal_strlit("||");
    let sep = SEPARATOR@;
    let a = prefix + name;
    let s = a + sep + tail;
    let j = a.len() as int;
    assert(s.skip(j).subrange(0, 2) =~= sep);
    assert forall|k: int| 0 <= k < j implies !starts_with(#[trigger] s.skip(k), sep) by {
        if starts_with(s.skip(k), sep) {
            assert(s.skip(k).subrange(0, 2)[0] == '|');
            assert(s.skip(k).subrange(0, 2)[1] == '|');
            assert(s[k] == '|');
            assert(s[k + 1] == '|');
            if k < prefix.len() {
                assert(s[k] == prefix[k]);
            } else if k + 1 < j {
                let t = k - prefix.len();
                assert(name[t] == '|');
                assert(name[t + 1] == '|');
                assert(name.skip(t).subrange(0, 2) =~= sep);
                assert(starts_with(name.skip(t), sep));
                assert(contains(name, sep));
            } else {
                assert(name.last() == s[k]);
            }
        }
    }
    lemma_first_match_at(s, sep, 0, j);
    assert(s.take(j) =~= a);
    assert(s.skip(j + 2) =~= tail);
}

/// The fixed identifiers read back as the items that wrote them.
pub proof fn lemma_fixed_ids_read_back()
    ensures
        parse_id(id_text(MenuIdView::Quit)) == Some(MenuIdView::Quit),
        parse_id(id_text(MenuIdView::Config)) == Some(MenuIdView::Config),
        parse_id(id_text(MenuIdView::ReloadConfig)) == Some(MenuIdView::ReloadConfig),
        parse_id(id_text(MenuIdView::Navigations)) == Some(MenuIdView::Navigations),
        parse_id(id_text(MenuIdView::Commands)) == Some(MenuIdView::Commands),
        parse_id(id_text(MenuIdView::ShowView)) == Some(MenuIdView::ShowView),
        parse_id(id_text(MenuIdView::HideView)) == Some(MenuIdView::HideView),
{
    reveal_strlit("Quit");
    reveal_strlit("Config");
    reveal_strlit("ReloadConfig");
    reveal_strlit("Navigations");
    reveal_strlit("Commands");
    reveal_strlit("show_view");
    reveal_strlit("hide_view");
    assert(QUIT@ != CONFIG@);
    assert(CONFIG@ != RELOAD@);
    assert(QUIT@ != RELOAD@);
    assert(NAVIGATIONS@ != QUIT@ && NAVIGATIONS@ != CONFIG@ && NAVIGATIONS@ != RELOAD@);
    assert(COMMANDS@ != QUIT@ && COMMANDS@ != CONFIG@ && COMMANDS@ != RELOAD@ && COMMANDS@ != NAVIGATIONS@);
    assert(SHOW_VIEW@ != QUIT@ && SHOW_VIEW@ != CONFIG@ && SHOW_VIEW@ != RELOAD@ && SHOW_VIEW@
        != NAVIGATIONS@ && SHOW_VIEW@ != COMMANDS@);
    assert(HIDE_VIEW@ != QUIT@ && HIDE_VIEW@ != CONFIG@ && HIDE_VIEW@ != RELOAD@ && HIDE_VIEW@
        != NAVIGATIONS@ && HIDE_VIEW@ != COMMANDS@ && HIDE_VIEW@[0] != SHOW_VIEW@[0]);
}

proof fn lemma_not_fixed(s: Seq<char>)
    requires
        s.len() >= 1,
        s[0] != 'Q' && s[0] != 'C' && s[0] != 'R' && s[0] != 'N' && s[0] != 's' && s[0] != 'h',
    ensures
        s != QUIT@ && s != CONFIG@ && s != RELOAD@ && s != NAVIGATIONS@ && s != COMMANDS@ && s
            != SHOW_VIEW@ && s != HIDE_VIEW@,
{
    reveal_strlit("Quit");
    reveal_strlit("Config");
    reveal_strlit("ReloadConfig");
    reveal_strlit("Navigations");
    reveal_strlit("Commands");
    reveal_strlit("show_view");
    reveal_strlit("hide_view");
}

/// A navigation item's identifier reads back as the page's name and address,
/// unless the name holds `||`, ends with `|` or holds `Open_`, or the address
/// holds `||`.
pub proof fn lemma_navigation_id_reads_back(name: Seq<char>, url: Seq<char>)
    requires
        !contains(name, SEPARATOR@),
        !ends_with_char(name, '|'),
        !contains(name, OPEN@),
        !contains(url, SEPARATOR@),
    ensures
        parse_id(id_text(navigation_item_id(name, url))) == Some(MenuIdView::Open { id: name, url }),
{
    reveal_strlit("Open_");
    reveal_strlit("||");
    let s = OPEN@ + name + SEPARATOR@ + url;
    assert(id_text(navigation_item_id(name, url)) == s);
    assert(s[0] == 'O');
    lemma_not_fixed(s);
    assert(s.subrange(0, 5) =~= OPEN@);
    lemma_item_id_split(OPEN@, name, url);
    lemma_replace_leading(OPEN@, name, Seq::empty());
    lemma_replace_absent(name, OPEN@, Seq::empty());
    assert(Seq::<char>::empty() + name =~= name);
    lemma_first_field_absent(url, SEPARATOR@);
}

/// A command item's identifier reads back as the command's name and text,
/// unless the name holds `||`, ends with `|` or holds `Cmd_`, or the command
/// holds `||`.
pub proof fn lemma_command_id_reads_back(name: Seq<char>, cmd: Seq<char>)
    requires
        !contains(name, SEPARATOR@),
        !ends_with_char(name, '|'),
        !contains(name, CMD@),
        !contains(cmd, SEPARATOR@),
    ensures
        parse_id(id_text(command_item_id(name, cmd))) == Some(MenuIdView::Cmd { id: name, cmd }),
{
    reveal_strlit("Cmd_");
    reveal_strlit("Open_");
    reveal_strlit("||");
    reveal_strlit("Config");
    reveal_strlit("Commands");
    let s = CMD@ + name + SEPARATOR@ + cmd;
    assert(id_text(command_item_id(name, cmd)) == s);
    assert(s[0] == 'C' && s[1] == 'm');
    assert(s != CONFIG@ && s != COMMANDS@);
    reveal_strlit("Quit");
    reveal_strlit("ReloadConfig");
    reveal_strlit("Navigations");
    reveal_strlit("show_view");
    reveal_strlit("hide_view");
    assert(!starts_with(s, OPEN@)) by {
        if starts_with(s, OPEN@) {
            assert(s.subrange(0, 5)[0] == 'O');
        }
    }
    assert(s.subrange(0, 4) =~= CMD@);
    lemma_item_id_split(CMD@, name, cmd);
    lemma_replace_leading(CMD@, name, Seq::empty());
    lemma_replace_absent(name, CMD@, Seq::empty());
    assert(Seq::<char>::empty() + name =~= name);
    lemma_first_field_absent(cmd, SEPARATOR@);
}

/// A command group's identifier reads back as the group's name, unless the
/// name holds `CommandGroup_`.
pub proof fn lemma_group_id_reads_back(name: Seq<char>)
    requires
        !contains(name, COMMAND_GROUP@),
    ensures
        parse_id(id_text(MenuIdView::CommandGroup(name))) == Some(MenuIdView::CommandGroup(name)),
{
    reveal_strlit("CommandGroup_");
    reveal_strlit("Cmd_");
    reveal_strlit("Open_");
    reveal_strlit("Quit");
    reveal_strlit("Config");
    reveal_strlit("ReloadConfig");
    reveal_strlit("Navigations");
    reveal_strlit("Commands");
    reveal_strlit("show_view");
    reveal_strlit("hide_view");
    let s = COMMAND_GROUP@ + name;
    assert(s.len() >= 13);
    assert(s[0] == 'C' && s[1] == 'o');
    assert(!starts_with(s, OPEN@)) by {
        if starts_with(s, OPEN@) {
            assert(s.subrange(0, 5)[0] == 'O');
        }
    }
    assert(!starts_with(s, CMD@)) by {
        if starts_with(s, CMD@) {
            assert(s.subrange(0, 4)[1] == 'm');
        }
    }
    assert(s.subrange(0, 13) =~= COMMAND_GROUP@);
    lemma_replace_leading(COMMAND_GROUP@, name, Seq::empty());
    lemma_replace_absent(name, COMMAND_GROUP@, Seq::empty());
    assert(Seq::<char>::empty() + name =~= name);
}

/// The picture shown beside a menu item.
#[derive(Debug, Clone, PartialEq, Eq)]
pub enum MenuIcon {
    NoIcon,
    DefaultWeb,
    CommandIcon,
    File(String),
}

/// One clickable item of the menu.
#[derive(Debug, Clone, PartialEq, Eq)]
pub struct MenuEntry {
    pub id: MenuItemIds,
    pub text: String,
    pub enabled: bool,
    pub icon: MenuIcon,
}

/// A command group's submenu.
#[derive(Debug, Clone, PartialEq, Eq)]
pub struct GroupMenu {
    pub id: MenuItemIds,
    pub text: String,
    pub entries: Vec<MenuEntry>,
}

/// The commands submenu: the group submenus first, then the single commands.
#[derive(Debug, Clone, PartialEq, Eq)]
pub struct CommandsMenu {
    pub groups: Vec<GroupMenu>,
    pub entries: Vec<MenuEntry>,
}

/// One line of the top level of the menu.
#[derive(Debug, Clone, PartialEq, Eq)]
pub enum TopLevel {
    NavigationsMenu,
    CommandsMenu,
    Separator,
    Item(MenuEntry),
}

/// The file of a navigation icon under `home`.
pub open spec fn icon_path(home: Seq<char>, icon: Seq<char>) -> Seq<char> {
    home + "/"@ + WF_APP_DIR@ + "/"@ + ICONS_DIR@ + "/"@ + icon
}

/// `e` is the menu item of web page `n`.
pub open spec fn navigation_entry_of(e: MenuEntry, n: Navigation, home: Seq<char>) -> bool {
    &&& e.id@ == navigation_item_id(n.name@, n.url@)
    &&& e.text@ == uppercase(n.name@)
    &&& e.enabled
    &&& match n.icon {
        None => e.icon is DefaultWeb,
        Some(i) => e.icon matches MenuIcon::File(p) && p@ == icon_path(home, i@),
    }
}

/// `e` is the menu item of command `c`.
pub open spec fn command_entry_of(e: MenuEntry, c: Cmd) -> bool {
    &&& e.id@ == command_item_id(c.name@, c.cmd@)
    &&& e.text@ == c.name@
    &&& e.enabled
    &&& e.icon is CommandIcon
}

/// `e` is a plain item with identifier `id` and text `text`.
pub open spec fn plain_entry(e: MenuEntry, id: MenuIdView, text: Seq<char>, enabled: bool) -> bool {
    &&& e.id@ == id
    &&& e.text@ == text
    &&& e.enabled == enabled
    &&& e.icon is NoIcon
}

/// The single commands of a command list, in order.
pub open spec fn simple_commands(cmds: Seq<Command>) -> Seq<Cmd>
    decreases cmds.len(),
{
    if cmds.len() == 0 {
        Seq::empty()
    } else {
        match cmds.last() {
            Command::Simple(c) => simple_commands(cmds.drop_last()).push(c),
            Command::Group(_) => simple_commands(cmds.drop_last()),
        }
    }
}

/// The groups of a command list, in order.
pub open spec fn command_groups(cmds: Seq<Command>) -> Seq<crate::config::CmdGrp>
    decreases cmds.len(),
{
    if cmds.len() == 0 {
        Seq::empty()
    } else {
        match cmds.last() {
            Command::Simple(_) => command_groups(cmds.drop_last()),
            Command::Group(g) => command_groups(cmds.drop_last()).push(g),
        }
    }
}

/// The group of a command-list entry, if it is one.
pub open spec fn group_of(c: Command) -> Option<crate::config::CmdGrp> {
    match c {
        Command::Group(g) => Some(g),
        Command::Simple(_) => None,
    }
}

/// The single command of a command-list entry, if it is one.
pub open spec fn simple_of(c: Command) -> Option<Cmd> {
    match c {
        Command::Simple(x) => Some(x),
        Command::Group(_) => None,
    }
}

/// The submenus of the commands menu are the list's groups, every one of
/// them, in the list's order; its items are the list's single commands, every
/// one of them, in order.
pub proof fn lemma_command_menu_covers_list(cmds: Seq<Command>)
    ensures
        command_groups(cmds) == cmds.filter_map(|c: Command| group_of(c)),
        simple_commands(cmds) == cmds.filter_map(|c: Command| simple_of(c)),
    decreases cmds.len(),
{
    if cmds.len() > 0 {
        lemma_command_menu_covers_list(cmds.drop_last());
        match cmds.last() {
            Command::Group(g) => {
                assert(command_groups(cmds) =~= cmds.filter_map(|c: Command| group_of(c)));
            },
            Command::Simple(x) => {
                assert(simple_commands(cmds) =~= cmds.filter_map(|c: Command| simple_of(c)));
            },
        }
    }
}

/// `g` is the submenu of command group `grp`.
pub open spec fn group_menu_of(g: GroupMenu, grp: crate::config::CmdGrp) -> bool {
    &&& g.id@ == MenuIdView::CommandGroup(grp.name@)
    &&& g.text@ == grp.name@
    &&& g.entries@.len() == grp.commands@.len()
    &&& forall|j: int| 0 <= j < g.entries@.len() ==> command_entry_of(#[trigger] g.entries@[j], grp.commands@[j])
}

fn command_item(c: &Cmd) -> (e: MenuEntry)
    ensures
        command_entry_of(e, *c),
{
    MenuEntry {
        id: MenuItemIds::Cmd { id: join2(CMD, c.name.as_str()), cmd: c.cmd.clone() },
        text: c.name.clone(),
        enabled: true,
        icon: MenuIcon::CommandIcon,
    }
}

fn navigation_icon_item(n: &Navigation, home: &str) -> (e: MenuEntry)
    ensures
        navigation_entry_of(e, *n, home@),
{
    let icon = match &n.icon {
        None => MenuIcon::DefaultWeb,
        Some(i) => MenuIcon::File(get_config_icons_path(home, i.as_str())),
    };
    MenuEntry {
        id: MenuItemIds::Open { id: join2(OPEN, n.name.as_str()), url: n.url.clone() },
        text: to_uppercase(n.name.as_str()),
        enabled: true,
        icon,
    }
}

/// The items of the navigations submenu, one per web page, in order; the
/// icon files are looked for under `home`.
pub fn navigations(navs: &Vec<Navigation>, home: &str) -> (r: Vec<MenuEntry>)
    ensures
        r@.len() == navs@.len(),
        forall|i: int| 0 <= i < r@.len() ==> navigation_entry_of(#[trigger] r@[i], navs@[i], home@),
{
    let mut r: Vec<MenuEntry> = Vec::new();
    let mut i: usize = 0;
    while i < navs.len()
        invariant
            i <= navs.len(),
            r@.len() == i,
            forall|k: int| 0 <= k < i ==> navigation_entry_of(#[trigger] r@[k], navs@[k], home@),
        decreases navs.len() - i,
    {
        r.push(navigation_icon_item(&navs[i], home));
        i = i + 1;
    }
    r
}

/// The commands submenu: a submenu per group, in order, then an item per
/// single command, in order.
pub fn commands(cmds: &Vec<Command>) -> (r: CommandsMenu)
    ensures
        r.groups@.len() == command_groups(cmds@).len(),
        forall|i: int| 0 <= i < r.groups@.len() ==> group_menu_of(#[trigger] r.groups@[i], command_groups(cmds@)[i]),
        r.entries@.len() == simple_commands(cmds@).len(),
        forall|i: int| 0 <= i < r.entries@.len() ==> command_entry_of(#[trigger] r.entries@[i], simple_commands(cmds@)[i]),
{
    let mut groups: Vec<GroupMenu> = Vec::new();
    let mut entries: Vec<MenuEntry> = Vec::new();
    let mut i: usize = 0;
    assert(cmds@.take(0) =~= Seq::<Command>::empty());
    while i < cmds.len()
        invariant
            i <= cmds.len(),
            groups@.len() == command_groups(cmds@.take(i as int)).len(),
            forall|k: int| 0 <= k < groups@.len() ==> group_menu_of(#[trigger] groups@[k], command_groups(cmds@.take(i as int))[k]),
            entries@.len() == simple_commands(cmds@.take(i as int)).len(),
            forall|k: int| 0 <= k < entries@.len() ==> command_entry_of(#[trigger] entries@[k], simple_commands(cmds@.take(i as int))[k]),
        decreases cmds.len() - i,
    {
        let ghost next = cmds@.take(i + 1);
        proof {
            assert(next.drop_last() =~= cmds@.take(i as int));
            assert(next.last() == cmds@[i as int]);
        }
        match &cmds[i] {
            Command::Simple(c) => {
                entries.push(command_item(c));
            },
            Command::Group(g) => {
                let mut group_entries: Vec<MenuEntry> = Vec::new();
                let mut j: usize = 0;
                while j < g.commands.len()
                    invariant
                        j <= g.commands.len(),
                        group_entries@.len() == j,
                        forall|k: int| 0 <= k < j ==> command_entry_of(#[trigger] group_entries@[k], g.commands@[k]),
                    decreases g.commands.len() - j,
                {
                    group_entries.push(command_item(&g.commands[j]));
                    j = j + 1;
                }
                groups.push(
                    GroupMenu {
                        id: MenuItemIds::CommandGroup(g.name.clone()),
                        text: g.name.clone(),
                        entries: group_entries,
                    },
                );
            },
        }
        i = i + 1;
    }
    assert(cmds@.take(cmds@.len() as int) =~= cmds@);
    CommandsMenu { groups, entries }
}

/// The item that closes the application.
pub fn quit() -> (e: MenuEntry)
    ensures
        plain_entry(e, MenuIdView::Quit, QUIT_TEXT@, true),
{
    MenuEntry { id: MenuItemIds::Quit, text: QUIT_TEXT.to_owned(), enabled: true, icon: MenuIcon::NoIcon }
}

/// The item that opens the configuration directory.
pub fn config() -> (e: MenuEntry)
    ensures
        plain_entry(e, MenuIdView::Config, CONFIG_TEXT@, true),
{
    MenuEntry { id: MenuItemIds::Config, text: CONFIG_TEXT.to_owned(), enabled: true, icon: MenuIcon::NoIcon }
}

/// The item that reloads the configuration.
pub fn reload() -> (e: MenuEntry)
    ensures
        plain_entry(e, MenuIdView::ReloadConfig, RELOAD_CONFIG_TEXT@, true),
{
    MenuEntry {
        id: MenuItemIds::ReloadConfig,
        text: RELOAD_CONFIG_TEXT.to_owned(),
        enabled: true,
        icon: MenuIcon::NoIcon,
    }
}

/// The item that shows the window (`open`) or hides it.
pub fn show_hide_view_item(open: bool, enabled: bool) -> (e: MenuEntry)
    ensures
        open ==> plain_entry(e, MenuIdView::ShowView, SHOW_VIEW_TEXT@, enabled),
        !open ==> plain_entry(e, MenuIdView::HideView, HIDE_VIEW_TEXT@, enabled),
{
    if open {
        MenuEntry { id: MenuItemIds::ShowView, text: SHOW_VIEW_TEXT.to_owned(), enabled, icon: MenuIcon::NoIcon }
    } else {
        MenuEntry { id: MenuItemIds::HideView, text: HIDE_VIEW_TEXT.to_owned(), enabled, icon: MenuIcon::NoIcon }
    }
}

/// The top level of the menu, in order: navigations, commands, the
/// configuration item, the reload item and the quit item, with a separator
/// between each two.
pub fn menu_layout() -> (r: Vec<TopLevel>)
    ensures
        r@.len() == 9,
        r@[0] is NavigationsMenu,
        r@[1] is Separator,
        r@[2] is CommandsMenu,
        r@[3] is Separator,
        r@[4] matches TopLevel::Item(e) && plain_entry(e, MenuIdView::Config, CONFIG_TEXT@, true),
        r@[5] is Separator,
        r@[6] matches TopLevel::Item(e) && plain_entry(e, MenuIdView::ReloadConfig, RELOAD_CONFIG_TEXT@, true),
        r@[7] is Separator,
        r@[8] matches TopLevel::Item(e) && plain_entry(e, MenuIdView::Quit, QUIT_TEXT@, true),
{
    let mut r: Vec<TopLevel> = Vec::new();
    r.push(TopLevel::NavigationsMenu);
    r.push(TopLevel::Separator);
    r.push(TopLevel::CommandsMenu);
    r.push(TopLevel::Separator);
    r.push(TopLevel::Item(config()));
    r.push(TopLevel::Separator);
    r.push(TopLevel::Item(reload()));
    r.push(TopLevel::Separator);
    r.push(TopLevel::Item(quit()));
    r
}

/// Index of the first identifier, at or after `i`, that `pick` accepts.
pub open spec fn first_index_from(ids: Seq<String>, pick: spec_fn(Seq<char>) -> bool, i: int) -> Option<int>
    decreases ids.len() - i,
{
    if i < 0 || i >= ids.len() {
        None
    } else if pick(ids[i]@) {
        Some(i)
    } else {
        first_index_from(ids, pick, i + 1)
    }
}

proof fn lemma_first_index_sound_from(ids: Seq<String>, pick: spec_fn(Seq<char>) -> bool, i: int)
    requires
        0 <= i,
    ensures
        first_index_from(ids, pick, i) is None <==> forall|j: int| i <= j < ids.len() ==> !pick(#[trigger] ids[j]@),
        first_index_from(ids, pick, i) matches Some(p) ==> i <= p < ids.len() && pick(ids[p]@) && forall|j: int|
            i <= j < p ==> !pick(#[trigger] ids[j]@),
    decreases ids.len() - i,
{
    if i < ids.len() && !pick(ids[i]@) {
        lemma_first_index_sound_from(ids, pick, i + 1);
    }
}

/// The position that the menu searches give is that of the first identifier
/// accepted, and there is none exactly when no identifier is accepted.
pub proof fn lemma_first_index_is_first(ids: Seq<String>, pick: spec_fn(Seq<char>) -> bool)
    ensures
        first_index_from(ids, pick, 0) is None <==> forall|j: int| 0 <= j < ids.len() ==> !pick(#[trigger] ids[j]@),
        first_index_from(ids, pick, 0) matches Some(p) ==> 0 <= p < ids.len() && pick(ids[p]@) && forall|j: int|
            0 <= j < p ==> !pick(#[trigger] ids[j]@),
{
    lemma_first_index_sound_from(ids, pick, 0);
}

/// The identifier is the show or the hide item's.
pub open spec fn is_show_hide(id: Seq<char>) -> bool {
    id == SHOW_VIEW@ || id == HIDE_VIEW@
}

pub open spec fn as_usize_option(o: Option<int>) -> Option<usize> {
    match o {
        Some(p) => Some(p as usize),
        None => None,
    }
}

/// Position of the first of `ids` that `pick` accepts.
fn first_index(ids: &Vec<String>, wanted: &str, show_hide: bool) -> (r: Option<usize>)
    ensures
        r == as_usize_option(first_index_from(
            ids@,
            if show_hide { |s: Seq<char>| is_show_hide(s) } else { |s: Seq<char>| s == wanted@ },
            0,
        )),
{
    let ghost pick = if show_hide { |s: Seq<char>| is_show_hide(s) } else { |s: Seq<char>| s == wanted@ };
    let mut i: usize = 0;
    while i < ids.len()
        invariant
            i <= ids.len(),
            pick == (if show_hide { |s: Seq<char>| is_show_hide(s) } else { |s: Seq<char>| s == wanted@ }),
            first_index_from(ids@, pick, 0) == first_index_from(ids@, pick, i as int),
        decreases ids.len() - i,
    {
        let hit = if show_hide {
            same_text(ids[i].as_str(), SHOW_VIEW) || same_text(ids[i].as_str(), HIDE_VIEW)
        } else {
            same_text(ids[i].as_str(), wanted)
        };
        if hit {
            return Some(i);
        }
        i = i + 1;
    }
    None
}

/// Position of the show/hide item among the menu's item identifiers: the
/// item there and the separator after it are the ones to remove.
pub fn remove_show_hide_view_item(ids: &Vec<String>) -> (r: Option<usize>)
    ensures
        r == as_usize_option(first_index_from(ids@, |s: Seq<char>| is_show_hide(s), 0)),
{
    first_index(ids, "", true)
}

/// Where the item with identifier `id_value` is to be replaced: its position,
/// when the menu has it, to remove it, and the position at which to insert
/// its replacement (its position, or the start).
pub fn remove_items(ids: &Vec<String>, id_value: &str) -> (r: (Option<usize>, usize))
    ensures
        r.0 == as_usize_option(first_index_from(ids@, |s: Seq<char>| s == id_value@, 0)),
        r.1 == match r.0 {
            Some(p) => p,
            None => 0,
        },
{
    let found = first_index(ids, id_value, false);
    match found {
        Some(p) => (Some(p), p),
        None => (None, 0),
    }
}

/// Where the navigations submenu is to be replaced.
pub fn remove_navigation_items(ids: &Vec<String>) -> (r: (Option<usize>, usize))
    ensures
        r.0 == as_usize_option(first_index_from(ids@, |s: Seq<char>| s == NAVIGATIONS@, 0)),
        r.1 == match r.0 {
            Some(p) => p,
            None => 0,
        },
{
    remove_items(ids, NAVIGATIONS)
}

/// Where the commands submenu is to be replaced.
pub fn remove_command_items(ids: &Vec<String>) -> (r: (Option<usize>, usize))
    ensures
        r.0 == as_usize_option(first_index_from(ids@, |s: Seq<char>| s == COMMANDS@, 0)),
        r.1 == match r.0 {
            Some(p) => p,
            None => 0,
        },
{
    remove_items(ids, COMMANDS)
}

/// How the show/hide item is put back after the window changed: which item
/// is inserted (the hide item when the window is visible, the show item
/// otherwise), which one is taken out, the item itself (enabled as the
/// state's `view_visible` says) and where it goes: before the last of the
/// `item_count` items left; a separator follows it.
pub struct TrayMenuUpdate {
    pub inserted: &'static str,
    pub removed: &'static str,
    pub item: MenuEntry,
    pub position: usize,
}

/// The change to make to the menu when the window is `visible`.
pub fn update_tray_menu(visible: bool, view_visible: bool, item_count: usize) -> (r: TrayMenuUpdate)
    requires
        item_count >= 1,
    ensures
        r.inserted@ == (if visible { HIDE_VIEW@ } else { SHOW_VIEW@ }),
        r.removed@ == (if visible { SHOW_VIEW@ } else { HIDE_VIEW@ }),
        id_text(r.item.id@) == r.inserted@,
        visible ==> plain_entry(r.item, MenuIdView::HideView, HIDE_VIEW_TEXT@, view_visible),
        !visible ==> plain_entry(r.item, MenuIdView::ShowView, SHOW_VIEW_TEXT@, view_visible),
        r.position == item_count - 1,
{
    let (inserted, removed) = if visible {
        (HIDE_VIEW, SHOW_VIEW)
    } else {
        (SHOW_VIEW, HIDE_VIEW)
    };
    TrayMenuUpdate {
        inserted,
        removed,
        item: show_hide_view_item(!visible, view_visible),
        position: item_count - 1,
    }
}

proof fn lemma_first_index_at(ids: Seq<String>, pick: spec_fn(Seq<char>) -> bool, i: int, j: int)
    requires
        0 <= i <= j <= ids.len(),
        j < ids.len() ==> pick(ids[j]@),
        forall|k: int| i <= k < j ==> !pick(#[trigger] ids[k]@),
    ensures
        first_index_from(ids, pick, i) == (if j < ids.len() { Some(j) } else { None::<int> }),
    decreases j - i,
{
    if i < j {
        lemma_first_index_at(ids, pick, i + 1, j);
    }
}

/// The item identifiers of the menu after the show/hide update that
/// `update_tray_menu` plans for a window that is `visible`: the show/hide item
/// found by `remove_show_hide_view_item` is removed with the item after it,
/// then the new show/hide item and a separator (`new_sep`) are inserted
/// before the last remaining item.
pub open spec fn ids_after_show_hide_update(ids: Seq<String>, visible: bool, new_sep: Seq<char>) -> Seq<Seq<char>> {
    let v = ids.map_values(|x: String| x@);
    let rest = match first_index_from(ids, |x: Seq<char>| is_show_hide(x), 0) {
        Some(i) => v.remove(i).remove(i),
        None => v,
    };
    let pos = rest.len() - 1;
    rest.insert(pos, if visible { HIDE_VIEW@ } else { SHOW_VIEW@ }).insert(pos + 1, new_sep)
}

/// A menu laid out as items `xs` without a show/hide item, then possibly a
/// show/hide item and its separator, then a last item `q`, ends up as `xs`,
/// the hide item when the window is visible (the show item otherwise), a
/// separator and `q`: there is one show/hide item, just before the last
/// separator and the last item.
pub proof fn lemma_show_hide_update_layout(
    ids: Seq<String>,
    xs: Seq<Seq<char>>,
    h: Seq<char>,
    s: Seq<char>,
    q: Seq<char>,
    has_item: bool,
    visible: bool,
    new_sep: Seq<char>,
)
    requires
        forall|k: int| 0 <= k < xs.len() ==> !is_show_hide(#[trigger] xs[k]),
        ids.map_values(|x: String| x@) == (if has_item { xs + seq![h, s, q] } else { xs + seq![q] }),
        has_item ==> is_show_hide(h),
        !has_item ==> !is_show_hide(q),
    ensures
        first_index_from(ids, |x: Seq<char>| is_show_hide(x), 0) == (if has_item { Some(xs.len() as int) } else { None::<int> }),
        has_item ==> xs.len() + 1 < ids.len(),
        ids_after_show_hide_update(ids, visible, new_sep) == xs + seq![
            if visible { HIDE_VIEW@ } else { SHOW_VIEW@ },
            new_sep,
            q,
        ],
{
    let v = ids.map_values(|x: String| x@);
    let pick = |x: Seq<char>| is_show_hide(x);
    let j = if has_item { xs.len() as int } else { ids.len() as int };
    assert(v.len() == ids.len());
    assert forall|k: int| 0 <= k < j implies !pick(#[trigger] ids[k]@) by {
        assert(v[k] == ids[k]@);
        if k < xs.len() {
            assert(v[k] == xs[k]);
        } else {
            assert(v[k] == q);
        }
    }
    if has_item {
        assert(v[j] == ids[j]@);
        assert(v[j] == h);
    } else {
        assert(v[xs.len() as int] == q);
    }
    lemma_first_index_at(ids, pick, 0, j);
    let h2 = if visible { HIDE_VIEW@ } else { SHOW_VIEW@ };
    let rest = if has_item { v.remove(j).remove(j) } else { v };
    assert(rest =~= xs + seq![q]);
    let pos = rest.len() - 1;
    assert(rest.insert(pos, h2).insert(pos + 1, new_sep) =~= xs + seq![h2, new_sep, q]);
}

/// The identifiers that result from carrying out a plan on the menu whose
/// items have identifiers `ids`: the two items at `removal` go, then the
/// planned item is inserted at its position and a separator (`new_sep`)
/// after it.
pub open spec fn apply_show_hide_plan(
    ids: Seq<String>,
    removal: Option<usize>,
    update: TrayMenuUpdate,
    new_sep: Seq<char>,
) -> Seq<Seq<char>> {
    let v = ids.map_values(|x: String| x@);
    let rest = match removal {
        Some(i) => v.remove(i as int).remove(i as int),
        None => v,
    };
    rest.insert(update.position as int, id_text(update.item.id@)).insert(update.position as int + 1, new_sep)
}

/// Carrying out what `remove_show_hide_view_item` and `update_tray_menu`
/// return (the latter given the number of items left after the removal), on
/// a menu laid out as items `xs` without a show/hide item, then
/// possibly a show/hide item and its separator, then a last item `q`, leaves
/// `xs`, the hide item when the window is visible (the show item otherwise), a
/// separator and `q`.
pub proof fn lemma_planned_update_layout(
    ids: Seq<String>,
    xs: Seq<Seq<char>>,
    h: Seq<char>,
    s: Seq<char>,
    q: Seq<char>,
    has_item: bool,
    visible: bool,
    removal: Option<usize>,
    update: TrayMenuUpdate,
    new_sep: Seq<char>,
)
    requires
        forall|k: int| 0 <= k < xs.len() ==> !is_show_hide(#[trigger] xs[k]),
        ids.map_values(|x: String| x@) == (if has_item { xs + seq![h, s, q] } else { xs + seq![q] }),
        has_item ==> is_show_hide(h),
        !has_item ==> !is_show_hide(q),
        removal == as_usize_option(first_index_from(ids, |x: Seq<char>| is_show_hide(x), 0)),
        id_text(update.item.id@) == (if visible { HIDE_VIEW@ } else { SHOW_VIEW@ }),
        update.position + 1 == ids.len() - (if removal is Some { 2int } else { 0int }),
    ensures
        apply_show_hide_plan(ids, removal, update, new_sep) == xs + seq![
            if visible { HIDE_VIEW@ } else { SHOW_VIEW@ },
            new_sep,
            q,
        ],
{
    lemma_show_hide_update_layout(ids, xs, h, s, q, has_item, visible, new_sep);
    let v = ids.map_values(|x: String| x@);
    let rest = match removal {
        Some(i) => v.remove(i as int).remove(i as int),
        None => v,
    };
    if has_item {
        assert(rest =~= xs + seq![q]);
    } else {
        assert(rest =~= xs + seq![q]);
    }
}

} // verus!
