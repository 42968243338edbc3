//! Where the files of the program are.

use vstd::prelude::*;

use crate::text;

verus! {

/// The directories that places start from.
#[derive(Clone, Copy, Debug, PartialEq, Eq, Structural)]
pub enum Root {
    /// The directory of the program.
    Program,
    /// The directory for the data of programs.
    AppData,
}

/// A place: a directory and the names below it.
#[derive(Debug)]
pub struct Place {
    pub root: Root,
    pub parts: Vec<String>,
}

/// Names the files of the program.
pub struct AppPaths;

fn place(root: Root, a: Option<&str>, b: Option<&str>, c: Option<&str>) -> (r: Place)
    ensures
        r.root == root,
        text::strings(r.parts@) == listed(a) + listed(b) + listed(c),
{
    let mut parts: Vec<String> = Vec::new();
    push_name(&mut parts, a);
    push_name(&mut parts, b);
    push_name(&mut parts, c);
    assert(text::strings(parts@) =~= listed(a) + listed(b) + listed(c));
    Place { root, parts }
}

pub open spec fn listed(o: Option<&str>) -> Seq<Seq<char>> {
    match o {
        Some(s) => seq![s@],
        None => Seq::empty(),
    }
}

fn push_name(parts: &mut Vec<String>, o: Option<&str>)
    ensures
        text::strings(final(parts)@) == text::strings(old(parts)@) + listed(o),
{
    if let Some(s) = o {
        parts.push(s.to_owned());
    }
    assert(text::strings(parts@) =~= text::strings(old(parts)@) + listed(o));
}

/// A file in the data directory of the program.
pub open spec fn in_user_data(p: Place, name: Seq<char>) -> bool {
    p.root == Root::AppData && text::strings(p.parts@) == seq!["ArrorMeo"@, "NanoClash"@, name]
}

fn user_file(name: &str) -> (r: Place)
    ensures
        in_user_data(r, name@),
{
    let r = place(Root::AppData, Some("ArrorMeo"), Some("NanoClash"), Some(name));
    assert(text::strings(r.parts@) =~= seq!["ArrorMeo"@, "NanoClash"@, name@]);
    r
}

impl AppPaths {
    pub fn user_data_dir() -> (r: Place)
        ensures
            r.root == Root::AppData,
            text::strings(r.parts@) == seq!["ArrorMeo"@, "NanoClash"@],
    {
        let r = place(Root::AppData, Some("ArrorMeo"), Some("NanoClash"), None);
        assert(text::strings(r.parts@) =~= seq!["ArrorMeo"@, "NanoClash"@]);
        r
    }

    pub fn rules_bin_sidecar() -> (r: Place)
        ensures
            r.root == Root::Program,
            text::strings(r.parts@) == seq!["Rules.bin"@],
    {
        let r = place(Root::Program, Some("Rules.bin"), None, None);
        assert(text::strings(r.parts@) =~= seq!["Rules.bin"@]);
        r
    }

    pub fn user_rules_bin() -> (r: Place)
        ensures
            in_user_data(r, "Rules.bin"@),
    {
        user_file("Rules.bin")
    }

    pub fn data_dir() -> (r: Place)
        ensures
            in_user_data(r, "data"@),
    {
        user_file("data")
    }

    pub fn app_config_yaml() -> (r: Place)
        ensures
            in_user_data(r, "config.yaml"@),
    {
        user_file("config.yaml")
    }

    pub fn wintun_dll() -> (r: Place)
        ensures
            in_user_data(r, "wintun.dll"@),
    {
        user_file("wintun.dll")
    }

    pub fn proxy_undo_file() -> (r: Place)
        ensures
            in_user_data(r, "proxy-undo.json"@),
    {
        user_file("proxy-undo.json")
    }

    pub fn proxy_undo_mac() -> (r: Place)
        ensures
            in_user_data(r, "proxy-undo-mac.txt"@),
    {
        user_file("proxy-undo-mac.txt")
    }

    pub fn proxy_undo_gnome() -> (r: Place)
        ensures
            in_user_data(r, "proxy-undo-gnome.txt"@),
    {
        user_file("proxy-undo-gnome.txt")
    }

    pub fn tun_undo_file() -> (r: Place)
        ensures
            in_user_data(r, "tun-undo.json"@),
    {
        user_file("tun-undo.json")
    }

    pub fn ui_state_file() -> (r: Place)
        ensures
            in_user_data(r, "ui-state.json"@),
    {
        user_file("ui-state.json")
    }
}

/// The systems that name their data directory differently.
#[derive(Clone, Copy, Debug, PartialEq, Eq, Structural)]
pub enum System {
    Windows,
    Mac,
    Other,
}

/// The start of the data directory: a directory that the environment names,
/// or the current one, and the names below it.
pub open spec fn data_root(
    system: System,
    appdata: Option<Seq<char>>,
    xdg: Option<Seq<char>>,
    home: Option<Seq<char>>,
) -> Seq<Seq<char>> {
    let base = match home {
        Some(h) => h,
        None => "."@,
    };
    match system {
        System::Windows => seq![
            match appdata {
                Some(a) => a,
                None => "."@,
            },
        ],
        System::Mac => seq![base, "Library"@, "Application Support"@],
        System::Other => match xdg {
            Some(x) => seq![x],
            None => seq![base, ".config"@],
        },
    }
}

/// The names, from the root on, of the directory for the data of programs.
pub fn dirs_appdata(
    system: System,
    appdata: Option<&str>,
    xdg: Option<&str>,
    home: Option<&str>,
) -> (r: Vec<String>)
    ensures
        text::strings(r@) == data_root(
            system,
            text::opt_str(appdata),
            text::opt_str(xdg),
            text::opt_str(home),
        ),
{
    let base: &str = match home {
        Some(h) => h,
        None => ".",
    };
    let mut r: Vec<String> = Vec::new();
    match system {
        System::Windows => {
            r.push(
                match appdata {
                    Some(a) => a.to_owned(),
                    None => ".".to_owned(),
                },
            );
        },
        System::Mac => {
            r.push(base.to_owned());
            r.push("Library".to_owned());
            r.push("Application Support".to_owned());
        },
        System::Other => match xdg {
            Some(x) => {
                r.push(x.to_owned());
            },
            None => {
                r.push(base.to_owned());
                r.push(".config".to_owned());
            },
        },
    }
    assert(text::strings(r@) =~= data_root(
        system,
        text::opt_str(appdata),
        text::opt_str(xdg),
        text::opt_str(home),
    ));
    r
}

/// Whether a path, given by its names, lies in or below another one.
pub fn path_starts_with(path: &[String], root: &[String]) -> (r: bool)
    ensures
        r == text::strings(root@).is_prefix_of(text::strings(path@)),
{
    let ghost p = text::strings(path@);
    let ghost q = text::strings(root@);
    if root.len() > path.len() {
        assert(!q.is_prefix_of(p));
        return false;
    }
    let mut i: usize = 0;
    while i < root.len()
        invariant
            i <= root@.len() <= path@.len(),
            p == text::strings(path@),
            q == text::strings(root@),
            forall|j: int| 0 <= j < i ==> q[j] == p[j],
        decreases root@.len() - i,
    {
        let a = text::chars_of(path[i].as_str());
        let b = text::chars_of(root[i].as_str());
        if !text::same(a.as_slice(), b.as_slice()) {
            assert(q[i as int] != p[i as int]);
            assert(!q.is_prefix_of(p)) by {
                if q.is_prefix_of(p) {
                    assert(p.subrange(0, q.len() as int)[i as int] == p[i as int]);
                }
            }
            return false;
        }
        i += 1;
    }
    assert(q =~= p.subrange(0, q.len() as int));
    true
}

// ---- laws ----
/// Where data is kept on each system: where the environment says, else below the home
/// directory, else below the current one.
pub proof fn law_data_directories(appdata: Seq<char>, xdg: Seq<char>, home: Seq<char>)
    ensures
        data_root(System::Windows, Some(appdata), Some(xdg), Some(home)) == seq![appdata],
        data_root(System::Mac, Some(appdata), Some(xdg), Some(home)) == seq![
            home,
            "Library"@,
            "Application Support"@,
        ],
        data_root(System::Other, Some(appdata), Some(xdg), Some(home)) == seq![xdg],
        data_root(System::Other, Some(appdata), None, Some(home)) == seq![home, ".config"@],
        data_root(System::Windows, None, Some(xdg), Some(home)) == seq!["."@],
        data_root(System::Other, None, None, None) == seq!["."@, ".config"@],
{
}

} // verus!
