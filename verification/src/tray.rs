//! The menu of the tray.

use vstd::prelude::*;

use crate::inbound::INBOUND_PORT;
use crate::text;

verus! {

pub const ID_SHOW: u16 = 1001;

pub const ID_PROXY: u16 = 1002;

pub const ID_TUN: u16 = 1003;

pub const ID_DIR_DATA: u16 = 1004;

pub const ID_DIR_APP: u16 = 1005;

pub const ID_COPY_ENV: u16 = 1006;

pub const ID_RESTART: u16 = 1007;

pub const ID_QUIT: u16 = 1008;

pub const ID_THEME: u16 = 1009;

/// The number of the first profile in the menu.
pub const ID_PROFILE_BASE: u16 = 2000;

/// What the user wants.
#[derive(Clone, Debug)]
pub enum TrayEvent {
    ToggleWindow,
    ShowWindow,
    ToggleProxy,
    ToggleTun,
    SwitchProfile(String),
    OpenDataDir,
    OpenAppDir,
    CopyEnv,
    OpenTheme,
    Restart,
    Quit,
}

pub enum EventView {
    ToggleWindow,
    ShowWindow,
    ToggleProxy,
    ToggleTun,
    SwitchProfile(Seq<char>),
    OpenDataDir,
    OpenAppDir,
    CopyEnv,
    OpenTheme,
    Restart,
    Quit,
}

impl View for TrayEvent {
    type V = EventView;

    open spec fn view(&self) -> EventView {
        match *self {
            TrayEvent::ToggleWindow => EventView::ToggleWindow,
            TrayEvent::ShowWindow => EventView::ShowWindow,
            TrayEvent::ToggleProxy => EventView::ToggleProxy,
            TrayEvent::ToggleTun => EventView::ToggleTun,
            TrayEvent::SwitchProfile(s) => EventView::SwitchProfile(s@),
            TrayEvent::OpenDataDir => EventView::OpenDataDir,
            TrayEvent::OpenAppDir => EventView::OpenAppDir,
            TrayEvent::CopyEnv => EventView::CopyEnv,
            TrayEvent::OpenTheme => EventView::OpenTheme,
            TrayEvent::Restart => EventView::Restart,
            TrayEvent::Quit => EventView::Quit,
        }
    }
}

/// What the menu shows.
#[derive(Clone, Debug)]
pub struct TrayMenuState {
    pub proxy_on: bool,
    pub enhance_on: bool,
    pub enhance_ok: bool,
    pub profiles: Vec<String>,
    pub active_profile: Option<String>,
}

impl Default for TrayMenuState {
    fn default() -> (r: Self)
        ensures
            !r.proxy_on && !r.enhance_on && !r.enhance_ok,
            r.profiles@.len() == 0,
            r.active_profile is None,
    {
        TrayMenuState {
            proxy_on: false,
            enhance_on: false,
            enhance_ok: false,
            profiles: Vec::new(),
            active_profile: None,
        }
    }
}

/// What an entry of the menu with a number means.
pub open spec fn command_of(id: int, profiles: Seq<Seq<char>>) -> Option<EventView> {
    if id == ID_SHOW {
        Some(EventView::ShowWindow)
    } else if id == ID_PROXY {
        Some(EventView::ToggleProxy)
    } else if id == ID_TUN {
        Some(EventView::ToggleTun)
    } else if id == ID_DIR_DATA {
        Some(EventView::OpenDataDir)
    } else if id == ID_DIR_APP {
        Some(EventView::OpenAppDir)
    } else if id == ID_COPY_ENV {
        Some(EventView::CopyEnv)
    } else if id == ID_THEME {
        Some(EventView::OpenTheme)
    } else if id == ID_RESTART {
        Some(EventView::Restart)
    } else if id == ID_QUIT {
        Some(EventView::Quit)
    } else if ID_PROFILE_BASE <= id < ID_PROFILE_BASE + profiles.len() {
        Some(EventView::SwitchProfile(profiles[id - ID_PROFILE_BASE]))
    } else {
        None
    }
}

pub fn handle_command(id: u16, state: &TrayMenuState) -> (r: Option<TrayEvent>)
    ensures
        (match r {
            Some(e) => Some(e@),
            None => None,
        }) == command_of(id as int, text::strings(state.profiles@)),
{
    if id == ID_SHOW {
        Some(TrayEvent::ShowWindow)
    } else if id == ID_PROXY {
        Some(TrayEvent::ToggleProxy)
    } else if id == ID_TUN {
        Some(TrayEvent::ToggleTun)
    } else if id == ID_DIR_DATA {
        Some(TrayEvent::OpenDataDir)
    } else if id == ID_DIR_APP {
        Some(TrayEvent::OpenAppDir)
    } else if id == ID_COPY_ENV {
        Some(TrayEvent::CopyEnv)
    } else if id == ID_THEME {
        Some(TrayEvent::OpenTheme)
    } else if id == ID_RESTART {
        Some(TrayEvent::Restart)
    } else if id == ID_QUIT {
        Some(TrayEvent::Quit)
    } else if id >= ID_PROFILE_BASE {
        let i: usize = (id - ID_PROFILE_BASE) as usize;
        if i < state.profiles.len() {
            Some(TrayEvent::SwitchProfile(state.profiles[i].as_str().to_owned()))
        } else {
            None
        }
    } else {
        None
    }
}

/// An entry of the menu.
#[derive(Debug)]
pub struct MenuItem {
    pub id: u16,
    pub label: String,
    pub checked: bool,
    pub enabled: bool,
}

#[verifier::ext_equal]
pub struct ItemView {
    pub id: int,
    pub label: Seq<char>,
    pub checked: bool,
    pub enabled: bool,
}

impl View for MenuItem {
    type V = ItemView;

    open spec fn view(&self) -> ItemView {
        ItemView {
            id: self.id as int,
            label: self.label@,
            checked: self.checked,
            enabled: self.enabled,
        }
    }
}

pub open spec fn item_views(v: Seq<MenuItem>) -> Seq<ItemView> {
    Seq::new(v.len(), |i: int| v[i]@)
}

/// The number of a profile.
pub open spec fn profile_id(i: int) -> int {
    let n = ID_PROFILE_BASE + i % 0x10000;
    if n > 0xffff {
        0xffff
    } else {
        n
    }
}

/// The label of an entry: an ampersand is doubled, as it would mark a letter.
pub open spec fn menu_label(s: Seq<char>) -> Seq<char> {
    text::replaced(s, "&"@, "&&"@)
}

fn label_of(s: &str) -> (r: String)
    ensures
        r@ == menu_label(s@),
{
    let c = text::chars_of(s);
    let l = text::replace(c.as_slice(), "&", "&&");
    text::string_of(l.as_slice())
}

/// The entries for profiles; the active one is checked. Without profiles there is
/// one that cannot be chosen.
pub open spec fn profile_views(profiles: Seq<Seq<char>>, active: Option<Seq<char>>) -> Seq<
    ItemView,
> {
    if profiles.len() == 0 {
        seq![ItemView { id: 0, label: menu_label("(无)"@), checked: false, enabled: false }]
    } else {
        Seq::new(
            profiles.len(),
            |i: int|
                ItemView {
                    id: profile_id(i),
                    label: menu_label(profiles[i]),
                    checked: active == Some(profiles[i]),
                    enabled: true,
                },
        )
    }
}

pub fn profile_items(state: &TrayMenuState) -> (r: Vec<MenuItem>)
    ensures
        item_views(r@) == profile_views(
            text::strings(state.profiles@),
            text::opt_view(state.active_profile),
        ),
{
    let mut r: Vec<MenuItem> = Vec::new();
    let ghost names = text::strings(state.profiles@);
    let ghost active = text::opt_view(state.active_profile);
    if state.profiles.len() == 0 {
        r.push(MenuItem { id: 0, label: label_of("(无)"), checked: false, enabled: false });
        assert(item_views(r@) =~= profile_views(names, active));
        return r;
    }
    let mut i: usize = 0;
    assert(item_views(r@) =~= profile_views(names, active).take(0));
    while i < state.profiles.len()
        invariant
            i <= state.profiles@.len(),
            names == text::strings(state.profiles@),
            names.len() > 0,
            active == text::opt_view(state.active_profile),
            item_views(r@) == profile_views(names, active).take(i as int),
        decreases state.profiles@.len() - i,
    {
        let low: u32 = (i % 0x10000) as u32;
        let n: u32 = ID_PROFILE_BASE as u32 + low;
        let id: u16 = if n > 0xffff {
            0xffff
        } else {
            n as u16
        };
        let name = state.profiles[i].as_str();
        let checked: bool = match &state.active_profile {
            Some(a) => {
                let x = text::chars_of(a.as_str());
                let y = text::chars_of(name);
                text::same(x.as_slice(), y.as_slice())
            },
            None => false,
        };
        let item = MenuItem { id, label: label_of(name), checked, enabled: true };
        let ghost v = item@;
        let ghost before = item_views(r@);
        r.push(item);
        proof {
            let all = profile_views(names, active);
            assert(names[i as int] == name@);
            assert(v == all[i as int]);
            assert(item_views(r@) =~= before.push(v));
            assert(all.take(i + 1) =~= all.take(i as int).push(all[i as int]));
        }
        i += 1;
    }
    assert(profile_views(names, active).take(i as int) =~= profile_views(names, active));
    r
}

/// A line of the menu.
#[derive(Debug)]
pub enum MenuEntry {
    Item(MenuItem),
    Separator,
    /// A menu within the menu.
    Popup(String, Vec<MenuItem>),
}

#[verifier::ext_equal]
pub enum MenuEntryView {
    Item(ItemView),
    Separator,
    Popup(Seq<char>, Seq<ItemView>),
}

impl View for MenuEntry {
    type V = MenuEntryView;

    open spec fn view(&self) -> MenuEntryView {
        match *self {
            MenuEntry::Item(i) => MenuEntryView::Item(i@),
            MenuEntry::Separator => MenuEntryView::Separator,
            MenuEntry::Popup(l, v) => MenuEntryView::Popup(l@, item_views(v@)),
        }
    }
}

pub open spec fn entry_views(v: Seq<MenuEntry>) -> Seq<MenuEntryView> {
    Seq::new(v.len(), |i: int| v[i]@)
}

pub open spec fn item_view(id: u16, label: Seq<char>, checked: bool, enabled: bool) -> ItemView {
    ItemView { id: id as int, label: menu_label(label), checked, enabled }
}

pub open spec fn plain_view(id: u16, label: Seq<char>) -> MenuEntryView {
    MenuEntryView::Item(item_view(id, label, false, true))
}

/// The whole menu, from the top.
pub open spec fn menu_views(
    proxy_on: bool,
    enhance_on: bool,
    enhance_ok: bool,
    profiles: Seq<Seq<char>>,
    active: Option<Seq<char>>,
) -> Seq<MenuEntryView> {
    seq![
        plain_view(ID_SHOW, "显示窗口"@),
        MenuEntryView::Separator,
        MenuEntryView::Item(item_view(ID_PROXY, "系统代理"@, proxy_on, true)),
        MenuEntryView::Item(item_view(ID_TUN, "虚拟网卡"@, enhance_on, enhance_ok)),
        MenuEntryView::Popup("订阅配置"@, profile_views(profiles, active)),
        MenuEntryView::Popup(
            "打开目录"@,
            seq![
                item_view(ID_DIR_DATA, "数据目录"@, false, true),
                item_view(ID_DIR_APP, "程序目录"@, false, true),
            ],
        ),
        plain_view(ID_COPY_ENV, "复制环境变量"@),
        plain_view(ID_THEME, "主题"@),
        MenuEntryView::Separator,
        plain_view(ID_RESTART, "重启应用"@),
        plain_view(ID_QUIT, "退出应用\tCtrl+Q"@),
    ]
}

fn item(id: u16, label: &str, checked: bool, enabled: bool) -> (r: MenuItem)
    ensures
        r@ == item_view(id, label@, checked, enabled),
{
    MenuItem { id, label: label_of(label), checked, enabled }
}

/// The menu that is shown for a state. The window is its default entry.
pub fn show_menu(state: &TrayMenuState) -> (r: Vec<MenuEntry>)
    ensures
        entry_views(r@) == menu_views(
            state.proxy_on,
            state.enhance_on,
            state.enhance_ok,
            text::strings(state.profiles@),
            text::opt_view(state.active_profile),
        ),
{
    let mut r: Vec<MenuEntry> = Vec::new();
    r.push(MenuEntry::Item(item(ID_SHOW, "显示窗口", false, true)));
    r.push(MenuEntry::Separator);
    r.push(MenuEntry::Item(item(ID_PROXY, "系统代理", state.proxy_on, true)));
    r.push(MenuEntry::Item(item(ID_TUN, "虚拟网卡", state.enhance_on, state.enhance_ok)));
    r.push(MenuEntry::Popup("订阅配置".to_owned(), profile_items(state)));
    let mut dirs: Vec<MenuItem> = Vec::new();
    dirs.push(item(ID_DIR_DATA, "数据目录", false, true));
    dirs.push(item(ID_DIR_APP, "程序目录", false, true));
    assert(item_views(dirs@) =~= seq![
        item_view(ID_DIR_DATA, "数据目录"@, false, true),
        item_view(ID_DIR_APP, "程序目录"@, false, true),
    ]);
    r.push(MenuEntry::Popup("打开目录".to_owned(), dirs));
    r.push(MenuEntry::Item(item(ID_COPY_ENV, "复制环境变量", false, true)));
    r.push(MenuEntry::Item(item(ID_THEME, "主题", false, true)));
    r.push(MenuEntry::Separator);
    r.push(MenuEntry::Item(item(ID_RESTART, "重启应用", false, true)));
    r.push(MenuEntry::Item(item(ID_QUIT, "退出应用\tCtrl+Q", false, true)));
    assert(entry_views(r@) =~= menu_views(
        state.proxy_on,
        state.enhance_on,
        state.enhance_ok,
        text::strings(state.profiles@),
        text::opt_view(state.active_profile),
    ));
    r
}

/// The variables that make other programs use the proxy.
pub open spec fn env_of(port: nat) -> Seq<char> {
    let at = "=http://127.0.0.1:"@ + text::dec(port);
    "set http_proxy"@ + at + "\r\nset https_proxy"@ + at + "\r\nset ALL_PROXY"@ + at
}

pub fn env_text() -> (r: String)
    ensures
        r@ == env_of(INBOUND_PORT as nat),
{
    let mut at = text::chars_of("=http://127.0.0.1:");
    let d = text::format_dec(INBOUND_PORT as u64);
    text::append(&mut at, d.as_slice());
    let mut out = text::chars_of("set http_proxy");
    text::append(&mut out, at.as_slice());
    text::append_str(&mut out, "\r\nset https_proxy");
    text::append(&mut out, at.as_slice());
    text::append_str(&mut out, "\r\nset ALL_PROXY");
    text::append(&mut out, at.as_slice());
    text::string_of(out.as_slice())
}

// ---- laws ----
/// The entry of a profile chooses that profile, as far as there are numbers.
pub proof fn law_entry_chooses_profile(
    profiles: Seq<Seq<char>>,
    active: Option<Seq<char>>,
    i: int,
)
    requires
        0 <= i < profiles.len(),
        i < 0x10000 - ID_PROFILE_BASE,
    ensures
        command_of(profile_views(profiles, active)[i].id, profiles) == Some(
            EventView::SwitchProfile(profiles[i]),
        ),
{
}

/// Every entry of the menu and of the popup for directories means something, and
/// no two of them mean the same.
pub proof fn law_entries_mean_something(
    proxy_on: bool,
    enhance_on: bool,
    enhance_ok: bool,
    profiles: Seq<Seq<char>>,
    active: Option<Seq<char>>,
    i: int,
    j: int,
)
    requires
        0 <= i < j < 11,
        menu_views(proxy_on, enhance_on, enhance_ok, profiles, active)[i] is Item,
        menu_views(proxy_on, enhance_on, enhance_ok, profiles, active)[j] is Item,
    ensures
        ({
            let m = menu_views(proxy_on, enhance_on, enhance_ok, profiles, active);
            let a = command_of((m[i]->Item_0).id, profiles);
            let b = command_of((m[j]->Item_0).id, profiles);
            a is Some && b is Some && a != b
        }),
        ({
            let d = menu_views(proxy_on, enhance_on, enhance_ok, profiles, active)[5]->Popup_1;
            d.len() == 2 && command_of(d[0].id, profiles) == Some(EventView::OpenDataDir)
                && command_of(d[1].id, profiles) == Some(EventView::OpenAppDir)
        }),
{
}

/// What the entries mean, by their labels.
pub proof fn law_labels(
    proxy_on: bool,
    enhance_on: bool,
    enhance_ok: bool,
    profiles: Seq<Seq<char>>,
    active: Option<Seq<char>>,
    i: int,
    x: ItemView,
)
    requires
        0 <= i < 11,
        menu_views(proxy_on, enhance_on, enhance_ok, profiles, active)[i] == MenuEntryView::Item(x),
    ensures
        x.label == menu_label("显示窗口"@) ==> command_of(x.id, profiles) == Some(
            EventView::ShowWindow,
        ),
        x.label == menu_label("系统代理"@) ==> command_of(x.id, profiles) == Some(
            EventView::ToggleProxy,
        ) && x.checked == proxy_on && x.enabled,
        x.label == menu_label("虚拟网卡"@) ==> command_of(x.id, profiles) == Some(
            EventView::ToggleTun,
        ) && x.checked == enhance_on && x.enabled == enhance_ok,
        x.label == menu_label("复制环境变量"@) ==> command_of(x.id, profiles) == Some(
            EventView::CopyEnv,
        ),
        x.label == menu_label("主题"@) ==> command_of(x.id, profiles) == Some(EventView::OpenTheme),
        x.label == menu_label("重启应用"@) ==> command_of(x.id, profiles) == Some(
            EventView::Restart,
        ),
        x.label == menu_label("退出应用\tCtrl+Q"@) ==> command_of(x.id, profiles) == Some(
            EventView::Quit,
        ),
{
    lemma_labels_differ();
}

proof fn lemma_labels_differ()
    ensures
        menu_label("显示窗口"@)[0] == '显',
        menu_label("系统代理"@)[0] == '系',
        menu_label("虚拟网卡"@)[0] == '虚',
        menu_label("复制环境变量"@)[0] == '复',
        menu_label("主题"@)[0] == '主',
        menu_label("重启应用"@)[0] == '重',
        menu_label("退出应用\tCtrl+Q"@)[0] == '退',
{
    reveal_strlit("显示窗口");
    reveal_strlit("系统代理");
    reveal_strlit("虚拟网卡");
    reveal_strlit("复制环境变量");
    reveal_strlit("主题");
    reveal_strlit("重启应用");
    reveal_strlit("退出应用\tCtrl+Q");
    lemma_label_front("显示窗口"@);
    lemma_label_front("系统代理"@);
    lemma_label_front("虚拟网卡"@);
    lemma_label_front("复制环境变量"@);
    lemma_label_front("主题"@);
    lemma_label_front("重启应用"@);
    lemma_label_front("退出应用\tCtrl+Q"@);
}

proof fn lemma_label_front(s: Seq<char>)
    requires
        s.len() > 0,
        s[0] != '&',
    ensures
        menu_label(s)[0] == s[0],
{
    reveal_strlit("&");
    assert(!text::starts(s, "&"@)) by {
        if text::starts(s, "&"@) {
            assert(s.subrange(0, 1)[0] == s[0]);
            assert("&"@[0] == '&');
        }
    }
}

/// The entry of a profile shows its name, and it is checked where the profile is the active
/// one.
pub proof fn law_profile_entry(profiles: Seq<Seq<char>>, active: Option<Seq<char>>, i: int)
    requires
        0 <= i < profiles.len(),
        forall|j: int| 0 <= j < profiles[i].len() ==> (#[trigger] profiles[i][j]) != '&',
    ensures
        profile_views(profiles, active).len() == profiles.len(),
        profile_views(profiles, active)[i].label == profiles[i],
        profile_views(profiles, active)[i].checked <==> active == Some(profiles[i]),
        profile_views(profiles, active)[i].enabled,
{
    lemma_label_kept(profiles[i]);
}

proof fn lemma_label_kept(s: Seq<char>)
    requires
        forall|j: int| 0 <= j < s.len() ==> (#[trigger] s[j]) != '&',
    ensures
        menu_label(s) == s,
    decreases s.len(),
{
    reveal_strlit("&");
    if s.len() > 0 {
        assert(!text::starts(s, "&"@)) by {
            if text::starts(s, "&"@) {
                assert(s.subrange(0, 1)[0] == s[0]);
                assert("&"@[0] == '&');
            }
        }
        lemma_label_kept(s.skip(1));
        assert(seq![s[0]] + s.skip(1) =~= s);
    }
}

/// The variables: each of the three gets the address of the proxy, a line each.
pub proof fn law_variables(port: nat)
    ensures
        env_of(port) == "set http_proxy=http://127.0.0.1:"@ + text::dec(port)
            + "\r\nset https_proxy=http://127.0.0.1:"@ + text::dec(port)
            + "\r\nset ALL_PROXY=http://127.0.0.1:"@ + text::dec(port),
{
    reveal_strlit("set http_proxy");
    reveal_strlit("\r\nset https_proxy");
    reveal_strlit("\r\nset ALL_PROXY");
    reveal_strlit("=http://127.0.0.1:");
    reveal_strlit("set http_proxy=http://127.0.0.1:");
    reveal_strlit("\r\nset https_proxy=http://127.0.0.1:");
    reveal_strlit("\r\nset ALL_PROXY=http://127.0.0.1:");
    let at = "=http://127.0.0.1:"@;
    assert("set http_proxy"@ + at =~= "set http_proxy=http://127.0.0.1:"@);
    assert("\r\nset https_proxy"@ + at =~= "\r\nset https_proxy=http://127.0.0.1:"@);
    assert("\r\nset ALL_PROXY"@ + at =~= "\r\nset ALL_PROXY=http://127.0.0.1:"@);
    let d = text::dec(port);
    lemma_three_lines("set http_proxy"@, "\r\nset https_proxy"@, "\r\nset ALL_PROXY"@, at, d);
}

proof fn lemma_three_lines(a: Seq<char>, b: Seq<char>, c: Seq<char>, at: Seq<char>, d: Seq<char>)
    ensures
        a + (at + d) + b + (at + d) + c + (at + d) == (a + at) + d + (b + at) + d + (c + at) + d,
{
    assert(a + (at + d) =~= (a + at) + d);
    let x = (a + at) + d;
    assert(x + b + (at + d) =~= x + (b + at) + d);
    let y = x + (b + at) + d;
    assert(y + c + (at + d) =~= y + (c + at) + d);
}

} // verus!
