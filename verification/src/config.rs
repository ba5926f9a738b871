//! The configuration that the menu is built from, and where it lives on disk.

use vstd::prelude::*;
use vstd::utf8::*;
use crate::errors::{AppErrors, ErrorView};
use crate::text::{decode_utf8_bytes, join3, trim, trim_text};

verus! {

/// Directory under the home directory that holds the configuration.
pub const WF_APP_DIR: &'static str = ".wfapp";

/// Name of the configuration file.
pub const CONFIG_FILE_NAME: &'static str = "config.json";

/// Directory, inside the configuration directory, that holds navigation icons.
pub const ICONS_DIR: &'static str = "icons";

/// A web page that the menu opens.
#[derive(Debug, Clone, PartialEq, Eq)]
pub struct Navigation {
    pub name: String,
    pub url: String,
    pub icon: Option<String>,
}

/// A shell command that the menu runs.
#[derive(Debug, Clone, PartialEq, Eq)]
pub struct Cmd {
    pub name: String,
    pub cmd: String,
}

/// A named group of commands, shown as a submenu.
#[derive(Debug, Clone, PartialEq, Eq)]
pub struct CmdGrp {
    pub name: String,
    pub commands: Vec<Cmd>,
}

/// An entry of the command list: one command, or a group of them.
#[derive(Debug, Clone, PartialEq, Eq)]
pub enum Command {
    Simple(Cmd),
    Group(CmdGrp),
}

/// The whole configuration.  `variables` and `secrets` are name/value pairs
/// that command placeholders refer to.
#[derive(Debug, Clone, PartialEq, Eq)]
pub struct AppConfig {
    pub variables: Vec<(String, String)>,
    pub secrets: Vec<(String, String)>,
    pub path: String,
    pub navigations: Vec<Navigation>,
    pub commands: Vec<Command>,
}

/// No two pairs share a name.
pub open spec fn names_unique(entries: Seq<(String, String)>) -> bool {
    forall|i: int, j: int| 0 <= i < j < entries.len() ==> entries[i].0@ != entries[j].0@
}

impl AppConfig {
    /// Variable names are unique, and so are secret names, as they are in the
    /// configuration file's objects.
    pub open spec fn wf(&self) -> bool {
        names_unique(self.variables@) && names_unique(self.secrets@)
    }
}

impl Default for AppConfig {
    fn default() -> (c: AppConfig)
        ensures
            c.wf(),
            c.variables@.len() == 0,
            c.secrets@.len() == 0,
            c.path@.len() == 0,
            c.navigations@.len() == 0,
            c.commands@.len() == 0,
    {
        AppConfig {
            variables: Vec::new(),
            secrets: Vec::new(),
            path: String::new(),
            navigations: Vec::new(),
            commands: Vec::new(),
        }
    }
}

/// The value of the first pair whose name is `key`.
pub open spec fn lookup(entries: Seq<(String, String)>, key: Seq<char>) -> Option<Seq<char>>
    decreases entries.len(),
{
    if entries.len() == 0 {
        None
    } else if entries[0].0@ == key {
        Some(entries[0].1@)
    } else {
        lookup(entries.skip(1), key)
    }
}

/// With unique names, a name gives the value paired with it, wherever that
/// pair stands, and a name that no pair has gives nothing.
pub proof fn lemma_lookup_unique(entries: Seq<(String, String)>, key: Seq<char>)
    requires
        names_unique(entries),
    ensures
        forall|i: int| 0 <= i < entries.len() && #[trigger] entries[i].0@ == key ==> lookup(entries, key)
            == Some(entries[i].1@),
        (forall|i: int| 0 <= i < entries.len() ==> #[trigger] entries[i].0@ != key) ==> lookup(entries, key)
            is None,
    decreases entries.len(),
{
    if entries.len() > 0 {
        let rest = entries.skip(1);
        assert forall|i: int, j: int| 0 <= i < j < rest.len() implies rest[i].0@ != rest[j].0@ by {
            assert(rest[i] == entries[i + 1]);
            assert(rest[j] == entries[j + 1]);
        }
        lemma_lookup_unique(rest, key);
        assert forall|i: int| 0 <= i < entries.len() && #[trigger] entries[i].0@ == key implies lookup(
            entries,
            key,
        ) == Some(entries[i].1@) by {
            if i > 0 {
                assert(entries[0].0@ != entries[i].0@);
                assert(rest[i - 1] == entries[i]);
            }
        }
        if forall|i: int| 0 <= i < entries.len() ==> #[trigger] entries[i].0@ != key {
            assert forall|i: int| 0 <= i < rest.len() implies #[trigger] rest[i].0@ != key by {
                assert(rest[i] == entries[i + 1]);
            }
            assert(entries[0].0@ != key);
        }
    }
}

/// The value of the first pair named `key`, if any.
pub fn find_value(entries: &Vec<(String, String)>, key: &String) -> (r: Option<String>)
    ensures
        match lookup(entries@, key@) {
            Some(v) => r matches Some(s) && s@ == v,
            None => r is None,
        },
{
    let mut i: usize = 0;
    assert(entries@.skip(0) =~= entries@);
    while i < entries.len()
        invariant
            i <= entries.len(),
            lookup(entries@, key@) == lookup(entries@.skip(i as int), key@),
        decreases entries.len() - i,
    {
        proof {
            let t = entries@.skip(i as int);
            assert(t[0] == entries@[i as int]);
            assert(t.skip(1) =~= entries@.skip(i + 1));
        }
        if entries[i].0 == *key {
            return Some(entries[i].1.clone());
        }
        i = i + 1;
    }
    None
}

/// Some entry of `entries` is named `key`.
pub open spec fn has_name(entries: Seq<(String, String)>, key: Seq<char>) -> bool {
    exists|k: int| 0 <= k < entries.len() && #[trigger] entries[k].0@ == key
}

/// A name is found exactly when some pair has it.
pub proof fn lemma_lookup_has_name(e: Seq<(String, String)>, key: Seq<char>)
    ensures
        lookup(e, key) is Some <==> has_name(e, key),
    decreases e.len(),
{
    if e.len() > 0 {
        let r = e.skip(1);
        lemma_lookup_has_name(r, key);
        if e[0].0@ != key {
            if has_name(e, key) {
                let k = choose|k: int| 0 <= k < e.len() && #[trigger] e[k].0@ == key;
                assert(r[k - 1] == e[k]);
            }
            if has_name(r, key) {
                let k = choose|k: int| 0 <= k < r.len() && #[trigger] r[k].0@ == key;
                assert(r[k] == e[k + 1]);
            }
        }
    }
}

proof fn lemma_lookup_update(e: Seq<(String, String)>, i: int, p: (String, String), n: Seq<char>)
    requires
        0 <= i < e.len(),
        e[i].0@ == p.0@,
        forall|j: int| 0 <= j < i ==> #[trigger] e[j].0@ != p.0@,
    ensures
        lookup(e.update(i, p), n) == (if n == p.0@ { Some(p.1@) } else { lookup(e, n) }),
    decreases i,
{
    let u = e.update(i, p);
    if i > 0 {
        assert(e[0].0@ != p.0@);
        assert(u[0] == e[0]);
        assert(u.skip(1) =~= e.skip(1).update(i - 1, p));
        assert forall|j: int| 0 <= j < i - 1 implies #[trigger] e.skip(1)[j].0@ != p.0@ by {
            assert(e.skip(1)[j] == e[j + 1]);
        }
        lemma_lookup_update(e.skip(1), i - 1, p, n);
    } else {
        assert(u.skip(1) =~= e.skip(1));
    }
}

proof fn lemma_lookup_push(e: Seq<(String, String)>, p: (String, String), n: Seq<char>)
    ensures
        lookup(e.push(p), n) == (if lookup(e, n) is Some { lookup(e, n) } else if n == p.0@ { Some(
            p.1@,
        ) } else { None }),
    decreases e.len(),
{
    let u = e.push(p);
    if e.len() > 0 {
        assert(u[0] == e[0]);
        assert(u.skip(1) =~= e.skip(1).push(p));
        lemma_lookup_push(e.skip(1), p, n);
    } else {
        assert(u.skip(1) =~= e);
    }
}

/// Sets `key` to `value` among name/value pairs, as a map's insert does: the
/// pair named `key` takes the new value where there is one, else the pair is
/// added at the end.  Returns the value that `key` had.  Other names keep
/// their values, and names stay unique.
pub fn insert_entry(entries: &mut Vec<(String, String)>, key: String, value: String) -> (r: Option<String>)
    ensures
        match lookup(old(entries)@, key@) {
            Some(v) => r matches Some(s) && s@ == v,
            None => r is None,
        },
        lookup(final(entries)@, key@) == Some(value@),
        forall|n: Seq<char>| n != key@ ==> #[trigger] lookup(final(entries)@, n) == lookup(old(entries)@, n),
        names_unique(old(entries)@) ==> names_unique(final(entries)@),
{
    let mut i: usize = 0;
    while i < entries.len()
        invariant
            i <= entries.len(),
            entries@ == old(entries)@,
            forall|j: int| 0 <= j < i ==> #[trigger] entries@[j].0@ != key@,
        decreases entries.len() - i,
    {
        if entries[i].0 == key {
            let ghost e = entries@;
            let ghost p = (key, value);
            let previous = entries.remove(i);
            entries.insert(i, (key, value));
            proof {
                assert(entries@ =~= e.update(i as int, p));
                assert forall|n: Seq<char>| #[trigger] lookup(entries@, n) == (if n == key@ { Some(value@) } else {
                    lookup(e, n)
                }) by {
                    lemma_lookup_update(e, i as int, p, n);
                }
                lemma_lookup_update(e, i as int, e[i as int], key@);
                assert(e.update(i as int, e[i as int]) =~= e);
                assert(lookup(entries@, key@) == Some(value@));
                assert forall|a: int, b: int| 0 <= a < b < entries@.len() && names_unique(e) implies entries@[a].0@
                    != entries@[b].0@ by {
                    assert(e[a].0@ != e[b].0@);
                }
            }
            return Some(previous.1);
        }
        i = i + 1;
    }
    let ghost e = entries@;
    let ghost p = (key, value);
    proof {
        lemma_lookup_has_name(e, key@);
    }
    entries.push((key, value));
    proof {
        assert forall|n: Seq<char>| #[trigger] lookup(entries@, n) == (if lookup(e, n) is Some { lookup(e, n) } else if n
            == key@ { Some(value@) } else { None }) by {
            lemma_lookup_push(e, p, n);
        }
        assert(lookup(entries@, key@) == Some(value@));
        assert forall|a: int, b: int| 0 <= a < b < entries@.len() && names_unique(e) implies entries@[a].0@
            != entries@[b].0@ by {
            if b == e.len() {
                assert(e[a].0@ != key@);
            } else {
                assert(e[a].0@ != e[b].0@);
            }
        }
    }
    None
}

/// The home directory read from the output of `echo $HOME`: the output
/// without surrounding whitespace, or the reason it could not be read.
pub open spec fn home_from_output(output: Result<Seq<u8>, Seq<char>>) -> Result<Seq<char>, ErrorView> {
    match output {
        Err(e) => Err(ErrorView::FailedToReadConfigFile(e)),
        Ok(bytes) => if valid_utf8(bytes) {
            Ok(trim(decode_utf8(bytes)))
        } else {
            Err(ErrorView::FailedToReadHome)
        },
    }
}

/// The home directory, from what running `echo $HOME` gave: its standard
/// output, or the text of the error that kept it from running.
pub fn get_home_dir(output: Result<Vec<u8>, String>) -> (r: Result<String, AppErrors>)
    ensures
        match home_from_output(
            match output {
                Ok(b) => Ok(b@),
                Err(e) => Err(e@),
            },
        ) {
            Ok(h) => r matches Ok(s) && s@ == h,
            Err(e) => r matches Err(x) && x@ == e,
        },
{
    match output {
        Err(e) => Err(AppErrors::FailedToReadConfigFile(e)),
        Ok(bytes) => match decode_utf8_bytes(&bytes) {
            Some(s) => Ok(trim_text(s.as_str())),
            None => Err(AppErrors::FailedToReadHome),
        },
    }
}

/// The configuration directory: `<home>/.wfapp`.
pub fn get_config_dir_path(home: &str) -> (r: String)
    ensures
        r@ == home@ + "/"@ + WF_APP_DIR@,
{
    join3(home, "/", WF_APP_DIR)
}

/// The configuration file: `<home>/.wfapp/config.json`.
pub fn get_config_path(home: &str) -> (r: String)
    ensures
        r@ == home@ + "/"@ + WF_APP_DIR@ + "/"@ + CONFIG_FILE_NAME@,
{
    let dir = get_config_dir_path(home);
    join3(dir.as_str(), "/", CONFIG_FILE_NAME)
}

/// The file of a navigation icon: `<home>/.wfapp/icons/<icon>`.
pub fn get_config_icons_path(home: &str, icon: &str) -> (r: String)
    ensures
        r@ == home@ + "/"@ + WF_APP_DIR@ + "/"@ + ICONS_DIR@ + "/"@ + icon@,
{
    let dir = get_config_dir_path(home);
    let icons = join3(dir.as_str(), "/", ICONS_DIR);
    join3(icons.as_str(), "/", icon)
}

/// The paths that the first start creates when they are missing.
pub struct ConfigLayout {
    pub dir: String,
    pub config_file: String,
    pub icons_dir: String,
}

/// The configuration directory, the configuration file and the icons
/// directory under `home`.
pub fn config_layout(home: &str) -> (r: ConfigLayout)
    ensures
        r.dir@ == home@ + "/"@ + WF_APP_DIR@,
        r.config_file@ == r.dir@ + "/"@ + CONFIG_FILE_NAME@,
        r.icons_dir@ == r.dir@ + "/"@ + ICONS_DIR@,
{
    let dir = get_config_dir_path(home);
    let config_file = join3(dir.as_str(), "/", CONFIG_FILE_NAME);
    let icons_dir = join3(dir.as_str(), "/", ICONS_DIR);
    ConfigLayout { dir, config_file, icons_dir }
}

} // verus!
