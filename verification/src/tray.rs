//! The menu and the icon in the system tray.
use crate::error::PlumeError;
use crate::installation::{RefreshApp, RefreshDevice};
use crate::outside::{png_picture, read_png, show_time, utc_text, TIME_PATTERN};
use crate::plist_value::Instant;
use crate::text::{join2, join3, join4, signed_decimal, signed_text};
use vstd::prelude::*;

verus! {

// ---------------------------------------------------------------------------
// The menu
// ---------------------------------------------------------------------------

/// What an item of the menu does.
#[derive(Debug, Clone)]
pub enum TrayAction {
    Show,
    Quit,
    RefreshApp { udid: String, app_path: String },
    ForgetApp { udid: String, app_path: String },
}

/// The content of an action.
pub ghost enum ActionModel {
    Show,
    Quit,
    RefreshApp(Seq<char>, Seq<char>),
    ForgetApp(Seq<char>, Seq<char>),
}

impl View for TrayAction {
    type V = ActionModel;

    open spec fn view(&self) -> ActionModel {
        match self {
            TrayAction::Show => ActionModel::Show,
            TrayAction::Quit => ActionModel::Quit,
            TrayAction::RefreshApp { udid, app_path } => ActionModel::RefreshApp(udid@, app_path@),
            TrayAction::ForgetApp { udid, app_path } => ActionModel::ForgetApp(udid@, app_path@),
        }
    }
}

/// One entry of the menu. A submenu holds the entries up to the one that closes it.
#[derive(Debug)]
pub enum MenuEntry {
    Item { label: String, action: TrayAction },
    /// An item that cannot be chosen.
    Header { id: String, label: String },
    Separator,
    OpenSubmenu(String),
    CloseSubmenu,
}

/// The content of an entry.
pub ghost enum EntryModel {
    Item(Seq<char>, ActionModel),
    Header(Seq<char>, Seq<char>),
    Separator,
    OpenSubmenu(Seq<char>),
    CloseSubmenu,
}

impl View for MenuEntry {
    type V = EntryModel;

    open spec fn view(&self) -> EntryModel {
        match self {
            MenuEntry::Item { label, action } => EntryModel::Item(label@, action@),
            MenuEntry::Header { id, label } => EntryModel::Header(id@, label@),
            MenuEntry::Separator => EntryModel::Separator,
            MenuEntry::OpenSubmenu(label) => EntryModel::OpenSubmenu(label@),
            MenuEntry::CloseSubmenu => EntryModel::CloseSubmenu,
        }
    }
}

/// The contents of a list of entries.
pub open spec fn entries(v: Seq<MenuEntry>) -> Seq<EntryModel> {
    v.map_values(|e: MenuEntry| e@)
}

/// An instant that the calendar holds.
pub open spec fn showable(at: Instant) -> bool {
    -8_334_601_228_800 <= at.seconds <= 8_210_266_876_799 && at.nanos < 1_000_000_000
}

/// The instants of all the apps can be shown.
pub open spec fn all_showable(apps: Seq<RefreshApp>) -> bool {
    forall|i: int| 0 <= i < apps.len() ==> showable(#[trigger] apps[i].scheduled_refresh)
}

/// The label of an app: its name, and when it is signed again.
pub open spec fn app_label(app: RefreshApp) -> Seq<char> {
    let name = match app.name {
        Some(name) => name@,
        None => "???"@,
    };
    name + " (Next: "@ + utc_text(app.scheduled_refresh, TIME_PATTERN@) + ")"@
}

/// The entries of an app.
pub open spec fn app_entries(udid: Seq<char>, app: RefreshApp) -> Seq<EntryModel> {
    seq![
        EntryModel::OpenSubmenu(app_label(app)),
        EntryModel::Item("Refresh Now"@, ActionModel::RefreshApp(udid, app.path@)),
        EntryModel::Item("Forget App"@, ActionModel::ForgetApp(udid, app.path@)),
        EntryModel::CloseSubmenu,
    ]
}

/// The entries of the first `n` apps.
pub open spec fn apps_entries(udid: Seq<char>, apps: Seq<RefreshApp>, n: int) -> Seq<EntryModel>
    decreases n,
{
    if n <= 0 {
        seq![]
    } else {
        apps_entries(udid, apps, n - 1) + app_entries(udid, apps[n - 1])
    }
}

/// The entries of a device; none where it has no apps.
pub open spec fn device_entries(udid: Seq<char>, device: RefreshDevice) -> Seq<EntryModel> {
    if device.apps@.len() == 0 {
        seq![]
    } else {
        seq![EntryModel::Header("header-"@ + udid, device.name@)] + apps_entries(
            udid,
            device.apps@,
            device.apps@.len() as int,
        ) + seq![EntryModel::Separator]
    }
}

/// The entries of the first `n` devices.
pub open spec fn devices_entries(devices: Seq<(String, RefreshDevice)>, n: int) -> Seq<EntryModel>
    decreases n,
{
    if n <= 0 {
        seq![]
    } else {
        devices_entries(devices, n - 1) + device_entries(devices[n - 1].0@, devices[n - 1].1)
    }
}

/// Some device has an app.
pub open spec fn any_apps(devices: Seq<(String, RefreshDevice)>) -> bool {
    exists|i: int| 0 <= i < devices.len() && (#[trigger] devices[i]).1.apps@.len() > 0
}

/// The submenu of the apps; none where there are no apps.
pub open spec fn refresh_entries(devices: Seq<(String, RefreshDevice)>) -> Seq<EntryModel> {
    if any_apps(devices) {
        seq![EntryModel::OpenSubmenu("Auto-Refresh Apps"@)] + devices_entries(
            devices,
            devices.len() as int,
        ) + seq![EntryModel::CloseSubmenu, EntryModel::Separator]
    } else {
        seq![]
    }
}

/// The whole menu.
pub open spec fn menu_entries(
    app_name: Seq<char>,
    devices: Seq<(String, RefreshDevice)>,
) -> Seq<EntryModel> {
    seq![EntryModel::Item("Open"@, ActionModel::Show), EntryModel::Separator] + refresh_entries(
        devices,
    ) + seq![EntryModel::Item("Quit "@ + app_name, ActionModel::Quit)]
}

fn push_app(v: &mut Vec<MenuEntry>, udid: &str, app: &RefreshApp)
    requires
        showable(app.scheduled_refresh),
    ensures
        entries(final(v)@) == entries(old(v)@) + app_entries(udid@, *app),
{
    let ghost before = entries(v@);
    let name: String = match &app.name {
        Some(name) => name.clone(),
        None => "???".to_string(),
    };
    let scheduled: String = show_time(app.scheduled_refresh, TIME_PATTERN);
    let label: String = join4(name.as_str(), " (Next: ", scheduled.as_str(), ")");
    v.push(MenuEntry::OpenSubmenu(label));
    v.push(
        MenuEntry::Item {
            label: "Refresh Now".to_string(),
            action: TrayAction::RefreshApp { udid: udid.to_string(), app_path: app.path.clone() },
        },
    );
    v.push(
        MenuEntry::Item {
            label: "Forget App".to_string(),
            action: TrayAction::ForgetApp { udid: udid.to_string(), app_path: app.path.clone() },
        },
    );
    v.push(MenuEntry::CloseSubmenu);
    proof {
        assert(entries(v@) =~= before + app_entries(udid@, *app));
    }
}

fn push_device(v: &mut Vec<MenuEntry>, udid: &str, device: &RefreshDevice)
    requires
        all_showable(device.apps@),
    ensures
        entries(final(v)@) == entries(old(v)@) + device_entries(udid@, *device),
{
    let ghost before = entries(v@);
    let n: usize = device.apps.len();
    if n == 0 {
        proof {
            assert(entries(v@) =~= before + device_entries(udid@, *device));
        }
        return;
    }
    v.push(MenuEntry::Header { id: join2("header-", udid), label: device.name.clone() });
    let ghost head = seq![EntryModel::Header("header-"@ + udid@, device.name@)];
    proof {
        assert(entries(v@) =~= before + head + apps_entries(udid@, device.apps@, 0));
    }
    let mut i: usize = 0;
    while i < n
        invariant
            i <= n == device.apps@.len(),
            all_showable(device.apps@),
            entries(v@) == before + head + apps_entries(udid@, device.apps@, i as int),
        decreases n - i,
    {
        push_app(v, udid, &device.apps[i]);
        proof {
            assert(entries(v@) =~= before + head + apps_entries(udid@, device.apps@, i + 1));
        }
        i += 1;
    }
    let ghost listed = v@;
    v.push(MenuEntry::Separator);
    proof {
        assert(entries(v@) =~= entries(listed).push(EntryModel::Separator));
        assert(entries(v@) =~= before + device_entries(udid@, *device));
    }
}

fn has_apps(devices: &Vec<(String, RefreshDevice)>) -> (r: bool)
    ensures
        r == any_apps(devices@),
{
    let mut i: usize = 0;
    while i < devices.len()
        invariant
            i <= devices@.len(),
            forall|j: int| 0 <= j < i ==> (#[trigger] devices@[j]).1.apps@.len() == 0,
        decreases devices@.len() - i,
    {
        if devices[i].1.apps.len() > 0 {
            proof {
                assert(devices@[i as int].1.apps@.len() > 0);
            }
            return true;
        }
        i += 1;
    }
    false
}

/// The menu in the system tray.
#[derive(Debug)]
pub struct ImpactorTray {
    pub menu: Vec<MenuEntry>,
}

impl ImpactorTray {
    /// The menu without apps.
    pub fn new(app_name: &str) -> (r: ImpactorTray)
        ensures
            entries(r.menu@) == seq![
                EntryModel::Item("Open"@, ActionModel::Show),
                EntryModel::Separator,
                EntryModel::Item("Quit "@ + app_name@, ActionModel::Quit),
            ],
    {
        let mut menu: Vec<MenuEntry> = Vec::new();
        menu.push(MenuEntry::Item { label: "Open".to_string(), action: TrayAction::Show });
        menu.push(MenuEntry::Separator);
        menu.push(MenuEntry::Item { label: join2("Quit ", app_name), action: TrayAction::Quit });
        proof {
            assert(entries(menu@) =~= seq![
                EntryModel::Item("Open"@, ActionModel::Show),
                EntryModel::Separator,
                EntryModel::Item("Quit "@ + app_name@, ActionModel::Quit),
            ]);
        }
        ImpactorTray { menu }
    }

    /// Makes the menu anew for the apps that are signed again from time to time.
    pub fn update_refresh_apps(&mut self, app_name: &str, devices: &Vec<(String, RefreshDevice)>)
        requires
            forall|i: int| 0 <= i < devices@.len() ==> all_showable((#[trigger] devices@[i]).1.apps@),
        ensures
            entries(final(self).menu@) == menu_entries(app_name@, devices@),
    {
        let n: usize = devices.len();
        let mut menu: Vec<MenuEntry> = Vec::new();
        menu.push(MenuEntry::Item { label: "Open".to_string(), action: TrayAction::Show });
        menu.push(MenuEntry::Separator);
        let ghost top = seq![EntryModel::Item("Open"@, ActionModel::Show), EntryModel::Separator];
        proof {
            assert(entries(menu@) =~= top);
        }
        if has_apps(devices) {
            menu.push(MenuEntry::OpenSubmenu("Auto-Refresh Apps".to_string()));
            let ghost open = seq![EntryModel::OpenSubmenu("Auto-Refresh Apps"@)];
            proof {
                assert(entries(menu@) =~= top + (open + devices_entries(devices@, 0)));
            }
            let mut i: usize = 0;
            while i < n
                invariant
                    i <= n == devices@.len(),
                    forall|k: int|
                        0 <= k < devices@.len() ==> all_showable((#[trigger] devices@[k]).1.apps@),
                    entries(menu@) == top + (open + devices_entries(devices@, i as int)),
                decreases n - i,
            {
                push_device(&mut menu, devices[i].0.as_str(), &devices[i].1);
                proof {
                    assert(entries(menu@) =~= top + (open + devices_entries(devices@, i + 1)));
                }
                i += 1;
            }
            let ghost listed = menu@;
            menu.push(MenuEntry::CloseSubmenu);
            menu.push(MenuEntry::Separator);
            proof {
                assert(entries(menu@) =~= entries(listed) + seq![
                    EntryModel::CloseSubmenu,
                    EntryModel::Separator,
                ]);
            }
        }
        proof {
            assert(entries(menu@) =~= top + refresh_entries(devices@));
        }
        menu.push(MenuEntry::Item { label: join2("Quit ", app_name), action: TrayAction::Quit });
        proof {
            assert(entries(menu@) =~= menu_entries(app_name@, devices@));
        }
        self.menu = menu;
    }

    /// What the entry at a place of the menu does; none where it is no item.
    pub fn get_action(&self, id: usize) -> (r: Option<&TrayAction>)
        ensures
            match r {
                Some(action) => {
                    &&& id < self.menu@.len()
                    &&& self.menu@[id as int] is Item
                    &&& self.menu@[id as int]->action == *action
                },
                None => id >= self.menu@.len() || !(self.menu@[id as int] is Item),
            },
    {
        if id >= self.menu.len() {
            return None;
        }
        match &self.menu[id] {
            MenuEntry::Item { action, .. } => Some(action),
            _ => None,
        }
    }
}

/// Where the entries of an app start among those of the apps of its device.
proof fn lemma_app_has_entries(udid: Seq<char>, apps: Seq<RefreshApp>, n: int, j: int) -> (at: int)
    requires
        0 <= j < n <= apps.len(),
    ensures
        0 <= at,
        at + 4 <= apps_entries(udid, apps, n).len(),
        apps_entries(udid, apps, n).subrange(at, at + 4) == app_entries(udid, apps[j]),
    decreases n,
{
    let all = apps_entries(udid, apps, n);
    let before = apps_entries(udid, apps, n - 1);
    if j == n - 1 {
        let at = before.len() as int;
        assert(all.subrange(at, at + 4) =~= app_entries(udid, apps[j]));
        at
    } else {
        let at = lemma_app_has_entries(udid, apps, n - 1, j);
        assert(all.subrange(at, at + 4) =~= before.subrange(at, at + 4));
        at
    }
}

/// Where the entries of an app start among those of the devices.
proof fn lemma_device_has_entries(
    devices: Seq<(String, RefreshDevice)>,
    n: int,
    i: int,
    j: int,
) -> (at: int)
    requires
        0 <= i < n <= devices.len(),
        0 <= j < devices[i].1.apps@.len(),
    ensures
        0 <= at,
        at + 4 <= devices_entries(devices, n).len(),
        devices_entries(devices, n).subrange(at, at + 4) == app_entries(
            devices[i].0@,
            devices[i].1.apps@[j],
        ),
    decreases n,
{
    let all = devices_entries(devices, n);
    let before = devices_entries(devices, n - 1);
    let wanted = app_entries(devices[i].0@, devices[i].1.apps@[j]);
    if i == n - 1 {
        let apps = devices[i].1.apps@;
        let inner = lemma_app_has_entries(devices[i].0@, apps, apps.len() as int, j);
        let listed = apps_entries(devices[i].0@, apps, apps.len() as int);
        let at = before.len() + 1 + inner;
        assert(all.subrange(at, at + 4) =~= listed.subrange(inner, inner + 4));
        at
    } else {
        let at = lemma_device_has_entries(devices, n - 1, i, j);
        assert(all.subrange(at, at + 4) =~= before.subrange(at, at + 4));
        at
    }
}

/// Every app that is kept can be signed again and forgotten through the menu.
pub proof fn law_menu_offers_each_app(
    app_name: Seq<char>,
    devices: Seq<(String, RefreshDevice)>,
    i: int,
    j: int,
)
    requires
        0 <= i < devices.len(),
        0 <= j < devices[i].1.apps@.len(),
    ensures
        ({
            let udid = devices[i].0@;
            let path = devices[i].1.apps@[j].path@;
            let menu = menu_entries(app_name, devices);
            &&& menu.contains(
                EntryModel::Item("Refresh Now"@, ActionModel::RefreshApp(udid, path)),
            )
            &&& menu.contains(EntryModel::Item("Forget App"@, ActionModel::ForgetApp(udid, path)))
        }),
{
    let udid = devices[i].0@;
    let app = devices[i].1.apps@[j];
    let n = devices.len() as int;
    let at = lemma_device_has_entries(devices, n, i, j);
    let listed = devices_entries(devices, n);
    let menu = menu_entries(app_name, devices);
    assert(any_apps(devices));
    let found = listed.subrange(at, at + 4);
    assert(found == app_entries(udid, app));
    assert(menu[at + 4] == listed[at + 1]);
    assert(menu[at + 5] == listed[at + 2]);
    assert(listed[at + 1] == found[1]);
    assert(listed[at + 2] == found[2]);
}

/// The menu always offers to open the window first and to quit last.
pub proof fn law_menu_opens_and_quits(app_name: Seq<char>, devices: Seq<(String, RefreshDevice)>)
    ensures
        ({
            let menu = menu_entries(app_name, devices);
            &&& menu.len() > 1
            &&& menu[0] == EntryModel::Item("Open"@, ActionModel::Show)
            &&& menu.last() == EntryModel::Item("Quit "@ + app_name, ActionModel::Quit)
        }),
{
}

// ---------------------------------------------------------------------------
// The icon
// ---------------------------------------------------------------------------

pub const BAR_GAP: u32 = 14;

pub const BAR_WIDTH: u32 = 132;

pub const BAR_HEIGHT: u32 = 12;

pub const BAR_TRACK_ALPHA: u8 = 70;

pub const BAR_FILL_ALPHA: u8 = 255;

/// A percentage.
pub open spec fn percentage(progress: int) -> int {
    if progress < 0 {
        0
    } else if progress > 100 {
        100
    } else {
        progress
    }
}

fn clamp_percentage(progress: i32) -> (r: u32)
    ensures
        r == percentage(progress as int),
{
    if progress < 0 {
        0
    } else if progress > 100 {
        100
    } else {
        progress as u32
    }
}

/// The title beside the icon while an app is signed.
pub fn progress_title(progress: i32) -> (r: String)
    ensures
        r@ == " "@ + signed_decimal(percentage(progress as int)) + "%"@,
{
    let clamped: u32 = clamp_percentage(progress);
    join3(" ", signed_text(clamped as i32).as_str(), "%")
}

/// One pixel.
#[derive(Debug, Clone, Copy, PartialEq, Eq, Structural)]
pub struct Pixel {
    pub red: u8,
    pub green: u8,
    pub blue: u8,
    pub alpha: u8,
}

/// A pixel of the bar.
pub open spec fn white(alpha: u8) -> Pixel {
    Pixel { red: 255, green: 255, blue: 255, alpha }
}

/// A pixel on which nothing is drawn.
pub open spec fn clear() -> Pixel {
    Pixel { red: 0, green: 0, blue: 0, alpha: 0 }
}

/// A pixel belongs to a bar of width `w` and height `h` with round ends. An end is half a circle
/// with the height as its diameter; a pixel lies in it where its middle does. All lengths are
/// doubled.
pub open spec fn in_pill(x: int, y: int, w: int, h: int) -> bool {
    &&& 0 <= x < w
    &&& 0 <= y < h
    &&& if x < h / 2 {
        (2 * x + 1 - h) * (2 * x + 1 - h) + (2 * y + 1 - h) * (2 * y + 1 - h) <= h * h
    } else if x >= w - h / 2 {
        (2 * x + 1 + h - 2 * w) * (2 * x + 1 + h - 2 * w) + (2 * y + 1 - h) * (2 * y + 1 - h) <= h
            * h
    } else {
        true
    }
}

fn square(x: i64) -> (r: i64)
    requires
        -1_000_000 <= x <= 1_000_000,
    ensures
        r == x * x,
        0 <= r <= 1_000_000_000_000,
{
    assert(0 <= x * x <= 1_000_000 * 1_000_000) by (nonlinear_arith)
        requires
            -1_000_000 <= x <= 1_000_000,
    ;
    x * x
}

/// Whether a pixel belongs to a bar with round ends.
fn pill_covers(x: i64, y: i64, w: i64, h: i64) -> (r: bool)
    requires
        0 <= w <= 100_000,
        0 <= h <= 100_000,
    ensures
        r == in_pill(x as int, y as int, w as int, h as int),
{
    if x < 0 || y < 0 || x >= w || y >= h {
        return false;
    }
    let dy: i64 = square(2 * y + 1 - h);
    let limit: i64 = square(h);
    if x < h / 2 {
        square(2 * x + 1 - h) + dy <= limit
    } else if x >= w - h / 2 {
        square(2 * x + 1 + h - 2 * w) + dy <= limit
    } else {
        true
    }
}

/// The width of the filled part of the bar.
pub open spec fn fill_width(progress: int) -> int {
    let w = percentage(progress) * BAR_WIDTH / 100;
    if w > 0 && w < BAR_HEIGHT {
        BAR_HEIGHT as int
    } else {
        w
    }
}

fn fill_width_of(progress: i32) -> (r: u32)
    ensures
        r == fill_width(progress as int),
        r <= BAR_WIDTH,
{
    let w: u32 = clamp_percentage(progress) * BAR_WIDTH / 100;
    if w > 0 && w < BAR_HEIGHT {
        BAR_HEIGHT
    } else {
        w
    }
}

/// Rows of pixels, each as wide as the others.
pub open spec fn is_picture(rows: Seq<Vec<Pixel>>, width: int) -> bool {
    forall|y: int| 0 <= y < rows.len() ==> (#[trigger] rows[y])@.len() == width
}

/// A pixel of the icon with the bar beside it, where `inner` is the one of the icon alone.
pub open spec fn progress_pixel(
    inner: Pixel,
    width: int,
    height: int,
    progress: int,
    x: int,
    y: int,
) -> Pixel {
    let bx = x - width - BAR_GAP;
    let by = y - (height - BAR_HEIGHT) / 2;
    if x < width {
        inner
    } else if in_pill(bx, by, fill_width(progress), BAR_HEIGHT as int) {
        white(BAR_FILL_ALPHA)
    } else if in_pill(bx, by, BAR_WIDTH as int, BAR_HEIGHT as int) {
        white(BAR_TRACK_ALPHA)
    } else {
        clear()
    }
}

fn progress_row(base: &Vec<Vec<Pixel>>, width: u32, progress: i32, y: usize) -> (r: Vec<Pixel>)
    requires
        y < base@.len(),
        BAR_HEIGHT <= base@.len() <= u32::MAX,
        width + BAR_GAP + BAR_WIDTH <= u32::MAX,
        is_picture(base@, width as int),
    ensures
        r@.len() == width + BAR_GAP + BAR_WIDTH,
        forall|x: int|
            0 <= x < r@.len() ==> #[trigger] r@[x] == progress_pixel(
                base@[y as int]@[x],
                width as int,
                base@.len() as int,
                progress as int,
                x,
                y as int,
            ),
{
    let total: u32 = width + BAR_GAP + BAR_WIDTH;
    let filled: u32 = fill_width_of(progress);
    let height: usize = base.len();
    let by: i64 = y as i64 - ((height as i64 - BAR_HEIGHT as i64) / 2);
    let mut row: Vec<Pixel> = Vec::new();
    let mut x: u32 = 0;
    while x < total
        invariant
            x <= total == width + BAR_GAP + BAR_WIDTH,
            total <= u32::MAX,
            y < base@.len(),
            BAR_HEIGHT <= base@.len() <= u32::MAX,
            is_picture(base@, width as int),
            filled == fill_width(progress as int),
            filled <= BAR_WIDTH,
            by == y - (base@.len() - BAR_HEIGHT) / 2,
            row@.len() == x,
            forall|k: int|
                0 <= k < x ==> #[trigger] row@[k] == progress_pixel(
                    base@[y as int]@[k],
                    width as int,
                    base@.len() as int,
                    progress as int,
                    k,
                    y as int,
                ),
        decreases total - x,
    {
        let bx: i64 = x as i64 - width as i64 - BAR_GAP as i64;
        let pixel: Pixel = if x < width {
            base[y][x as usize]
        } else if pill_covers(bx, by, filled as i64, BAR_HEIGHT as i64) {
            Pixel { red: 255, green: 255, blue: 255, alpha: BAR_FILL_ALPHA }
        } else if pill_covers(bx, by, BAR_WIDTH as i64, BAR_HEIGHT as i64) {
            Pixel { red: 255, green: 255, blue: 255, alpha: BAR_TRACK_ALPHA }
        } else {
            Pixel { red: 0, green: 0, blue: 0, alpha: 0 }
        };
        row.push(pixel);
        x += 1;
    }
    row
}

/// The icon with a bar beside it that shows the progress, from and to rows of pixels.
pub fn render_progress_icon(base: &Vec<Vec<Pixel>>, width: u32, progress: i32) -> (r: Vec<Vec<Pixel>>)
    requires
        BAR_HEIGHT <= base@.len() <= u32::MAX,
        width + BAR_GAP + BAR_WIDTH <= u32::MAX,
        is_picture(base@, width as int),
    ensures
        r@.len() == base@.len(),
        is_picture(r@, width + BAR_GAP + BAR_WIDTH),
        forall|x: int, y: int|
            0 <= y < r@.len() && 0 <= x < width + BAR_GAP + BAR_WIDTH ==> #[trigger] r@[y]@[x]
                == progress_pixel(
                base@[y]@[x],
                width as int,
                base@.len() as int,
                progress as int,
                x,
                y,
            ),
{
    let mut rows: Vec<Vec<Pixel>> = Vec::new();
    let mut y: usize = 0;
    while y < base.len()
        invariant
            y <= base@.len(),
            BAR_HEIGHT <= base@.len() <= u32::MAX,
            width + BAR_GAP + BAR_WIDTH <= u32::MAX,
            is_picture(base@, width as int),
            rows@.len() == y,
            is_picture(rows@, width + BAR_GAP + BAR_WIDTH),
            forall|a: int, b: int|
                0 <= b < y && 0 <= a < width + BAR_GAP + BAR_WIDTH ==> #[trigger] rows@[b]@[a]
                    == progress_pixel(
                    base@[b]@[a],
                    width as int,
                    base@.len() as int,
                    progress as int,
                    a,
                    b,
                ),
        decreases base@.len() - y,
    {
        let row: Vec<Pixel> = progress_row(base, width, progress, y);
        rows.push(row);
        y += 1;
    }
    rows
}

/// A picture: red, green, blue and alpha of each pixel, row by row.
#[derive(Debug)]
pub struct Picture {
    pub width: u32,
    pub height: u32,
    pub samples: Vec<u8>,
}

/// The pixel in a column and a row of a picture.
pub open spec fn pixel_of(samples: Seq<u8>, width: int, x: int, y: int) -> Pixel {
    let k = 4 * (y * width + x);
    Pixel { red: samples[k], green: samples[k + 1], blue: samples[k + 2], alpha: samples[k + 3] }
}

proof fn lemma_pixel_in_range(width: int, height: int, x: int, y: int)
    requires
        0 <= x < width,
        0 <= y < height,
    ensures
        0 <= y * width + x,
        y * width + x < width * height,
        (y + 1) * width == y * width + width,
{
    assert(0 <= y * width) by (nonlinear_arith)
        requires
            0 <= y,
            0 < width,
    ;
    assert(y * width + width <= width * height) by (nonlinear_arith)
        requires
            y + 1 <= height,
            0 < width,
    ;
    assert((y + 1) * width == y * width + width) by (nonlinear_arith);
}

fn pixel_rows(p: &Picture) -> (r: Vec<Vec<Pixel>>)
    requires
        p.samples@.len() == 4 * (p.width * p.height),
    ensures
        r@.len() == p.height,
        is_picture(r@, p.width as int),
        forall|x: int, y: int|
            0 <= y < p.height && 0 <= x < p.width ==> #[trigger] r@[y]@[x] == pixel_of(
                p.samples@,
                p.width as int,
                x,
                y,
            ),
{
    let n: usize = p.samples.len();
    let mut rows: Vec<Vec<Pixel>> = Vec::new();
    let mut k: usize = 0;
    let mut y: u32 = 0;
    while y < p.height
        invariant
            y <= p.height,
            n == p.samples@.len() == 4 * (p.width * p.height),
            k == 4 * (y * p.width),
            rows@.len() == y,
            is_picture(rows@, p.width as int),
            forall|a: int, b: int|
                0 <= b < y && 0 <= a < p.width ==> #[trigger] rows@[b]@[a] == pixel_of(
                    p.samples@,
                    p.width as int,
                    a,
                    b,
                ),
        decreases p.height - y,
    {
        let mut row: Vec<Pixel> = Vec::new();
        let mut x: u32 = 0;
        while x < p.width
            invariant
                y < p.height,
                x <= p.width,
                n == p.samples@.len() == 4 * (p.width * p.height),
                k == 4 * (y * p.width + x),
                row@.len() == x,
                forall|a: int|
                    0 <= a < x ==> #[trigger] row@[a] == pixel_of(
                        p.samples@,
                        p.width as int,
                        a,
                        y as int,
                    ),
            decreases p.width - x,
        {
            proof {
                lemma_pixel_in_range(p.width as int, p.height as int, x as int, y as int);
            }
            row.push(
                Pixel {
                    red: p.samples[k],
                    green: p.samples[k + 1],
                    blue: p.samples[k + 2],
                    alpha: p.samples[k + 3],
                },
            );
            k += 4;
            x += 1;
        }
        proof {
            assert((y + 1) * p.width == y * p.width + p.width) by (nonlinear_arith);
        }
        rows.push(row);
        y += 1;
    }
    rows
}

fn samples_of(rows: &Vec<Vec<Pixel>>, width: u32) -> (r: Vec<u8>)
    requires
        is_picture(rows@, width as int),
    ensures
        r@.len() == 4 * (width * rows@.len()),
        forall|x: int, y: int|
            0 <= y < rows@.len() && 0 <= x < width ==> pixel_of(r@, width as int, x, y)
                == #[trigger] rows@[y]@[x],
{
    let mut out: Vec<u8> = Vec::new();
    let n: usize = rows.len();
    let mut y: usize = 0;
    while y < n
        invariant
            y <= n == rows@.len(),
            is_picture(rows@, width as int),
            out@.len() == 4 * (y * width),
            forall|a: int, b: int|
                0 <= b < y && 0 <= a < width ==> pixel_of(out@, width as int, a, b)
                    == #[trigger] rows@[b]@[a],
        decreases n - y,
    {
        let mut x: usize = 0;
        let m: usize = rows[y].len();
        while x < m
            invariant
                y < n == rows@.len(),
                m == width == rows@[y as int]@.len(),
                x <= m,
                out@.len() == 4 * (y * width + x),
                forall|a: int, b: int|
                    (0 <= b < y && 0 <= a < width) || (b == y && 0 <= a < x) ==> pixel_of(
                        out@,
                        width as int,
                        a,
                        b,
                    ) == #[trigger] rows@[b]@[a],
            decreases m - x,
        {
            let ghost before = out@;
            let p: Pixel = rows[y][x];
            out.push(p.red);
            out.push(p.green);
            out.push(p.blue);
            out.push(p.alpha);
            proof {
                assert forall|a: int, b: int|
                    (0 <= b < y && 0 <= a < width) || (b == y && 0 <= a < x + 1) implies pixel_of(
                    out@,
                    width as int,
                    a,
                    b,
                ) == #[trigger] rows@[b]@[a] by {
                    if b < y {
                        lemma_pixel_in_range(width as int, y as int, a, b);
                        assert(width * y == y * width) by (nonlinear_arith);
                        assert(pixel_of(before, width as int, a, b) == rows@[b]@[a]);
                    } else if a < x {
                        assert(0 <= b * width) by (nonlinear_arith)
                            requires
                                b >= 0,
                        ;
                        assert(pixel_of(before, width as int, a, b) == rows@[b]@[a]);
                    }
                }
            }
            x += 1;
        }
        proof {
            assert((y + 1) * width == y * width + width) by (nonlinear_arith);
        }
        y += 1;
    }
    proof {
        assert(n * width == width * n) by (nonlinear_arith);
    }
    out
}

/// A picture that the bar fits beside: it is as high as the bar, and the samples of both can be
/// addressed.
pub open spec fn fits_bar(width: int, height: int) -> bool {
    &&& BAR_HEIGHT <= height
    &&& width + BAR_GAP + BAR_WIDTH <= u32::MAX
    &&& 4 * ((width + BAR_GAP + BAR_WIDTH) * height) <= isize::MAX
}

fn bar_fits(width: u32, height: u32) -> (r: bool)
    ensures
        r == fits_bar(width as int, height as int),
{
    let total: u64 = width as u64 + BAR_GAP as u64 + BAR_WIDTH as u64;
    if height < BAR_HEIGHT || total > u32::MAX as u64 {
        return false;
    }
    proof {
        assert(0 <= total * height <= 0xffff_ffff * 0xffff_ffff) by (nonlinear_arith)
            requires
                0 <= total <= 0xffff_ffff,
                0 <= height <= 0xffff_ffff,
        ;
    }
    let samples: u128 = 4 * (total as u128 * height as u128);
    samples <= isize::MAX as u128
}

/// The icon with a bar beside it, from the PNG picture of the icon alone. None where the bar does not
/// fit beside it.
pub fn progress_icon(png: &[u8], progress: i32) -> (r: Result<Option<Picture>, PlumeError>)
    ensures
        match png_picture(png@) {
            None => r matches Err(PlumeError::Image(_)),
            Some((width, height, samples)) => {
                &&& r is Ok
                &&& r->Ok_0 is Some == fits_bar(width, height)
                &&& r->Ok_0 matches Some(icon) ==> {
                    &&& icon.width == width + BAR_GAP + BAR_WIDTH
                    &&& icon.height == height
                    &&& icon.samples@.len() == 4 * (icon.width * icon.height)
                    &&& forall|x: int, y: int|
                        0 <= x < icon.width && 0 <= y < icon.height ==> #[trigger] pixel_of(
                            icon.samples@,
                            icon.width as int,
                            x,
                            y,
                        ) == progress_pixel(
                            pixel_of(samples, width, x, y),
                            width,
                            height,
                            progress as int,
                            x,
                            y,
                        )
                }
            },
        },
{
    let base: Picture = match read_png(png) {
        Ok(p) => p,
        Err(e) => {
            return Err(PlumeError::Image(e));
        },
    };
    if !bar_fits(base.width, base.height) {
        return Ok(None);
    }
    let rows: Vec<Vec<Pixel>> = pixel_rows(&base);
    let drawn: Vec<Vec<Pixel>> = render_progress_icon(&rows, base.width, progress);
    let width: u32 = base.width + BAR_GAP + BAR_WIDTH;
    let samples: Vec<u8> = samples_of(&drawn, width);
    proof {
        assert forall|x: int, y: int| 0 <= x < width && 0 <= y < base.height implies #[trigger] pixel_of(
            samples@,
            width as int,
            x,
            y,
        ) == progress_pixel(
            pixel_of(base.samples@, base.width as int, x, y),
            base.width as int,
            base.height as int,
            progress as int,
            x,
            y,
        ) by {
            assert(pixel_of(samples@, width as int, x, y) == drawn@[y]@[x]);
            if x < base.width {
                assert(rows@[y]@[x] == pixel_of(base.samples@, base.width as int, x, y));
            }
        }
    }
    Ok(Some(Picture { width, height: base.height, samples }))
}

/// More progress fills at least as much of the bar, and a hundred percent fill all of it.
pub proof fn law_bar_grows(before: int, after: int)
    requires
        before <= after,
    ensures
        fill_width(before) <= fill_width(after) <= BAR_WIDTH,
        after >= 100 ==> fill_width(after) == BAR_WIDTH,
        before <= 0 ==> fill_width(before) == 0,
{
}

/// The menu refreshes and forgets nothing but apps that are kept, each on its own device.
pub proof fn law_menu_offers_kept_apps_alone(
    app_name: Seq<char>,
    devices: Seq<(String, RefreshDevice)>,
    label: Seq<char>,
    udid: Seq<char>,
    path: Seq<char>,
)
    requires
        menu_entries(app_name, devices).contains(
            EntryModel::Item(label, ActionModel::RefreshApp(udid, path)),
        ) || menu_entries(app_name, devices).contains(
            EntryModel::Item(label, ActionModel::ForgetApp(udid, path)),
        ),
    ensures
        exists|i: int, j: int|
            0 <= i < devices.len() && 0 <= j < devices[i].1.apps@.len() && (
            #[trigger] devices[i]).0@ == udid && (#[trigger] devices[i].1.apps@[j]).path@ == path,
{
    let menu = menu_entries(app_name, devices);
    let refresh = EntryModel::Item(label, ActionModel::RefreshApp(udid, path));
    let forget = EntryModel::Item(label, ActionModel::ForgetApp(udid, path));
    let k = choose|k: int| 0 <= k < menu.len() && (menu[k] == refresh || menu[k] == forget);
    if menu.contains(refresh) {
        let q = choose|q: int| 0 <= q < menu.len() && menu[q] == refresh;
        assert(menu[q] == refresh || menu[q] == forget);
    } else {
        let q = choose|q: int| 0 <= q < menu.len() && menu[q] == forget;
        assert(menu[q] == refresh || menu[q] == forget);
    }
    let top = seq![EntryModel::Item("Open"@, ActionModel::Show), EntryModel::Separator];
    let middle = refresh_entries(devices);
    assert(menu[k] == if k < 2 {
        top[k]
    } else if k < 2 + middle.len() {
        middle[k - 2]
    } else {
        EntryModel::Item("Quit "@ + app_name, ActionModel::Quit)
    });
    assert(2 <= k < 2 + middle.len());
    let m = k - 2;
    let all = devices_entries(devices, devices.len() as int);
    assert(any_apps(devices));
    assert(middle[m] == if m == 0 {
        EntryModel::OpenSubmenu("Auto-Refresh Apps"@)
    } else if m - 1 < all.len() {
        all[m - 1]
    } else if m - 1 == all.len() {
        EntryModel::CloseSubmenu
    } else {
        EntryModel::Separator
    });
    lemma_device_of_entry(devices, devices.len() as int, m - 1, udid, path);
}

proof fn lemma_device_of_entry(
    devices: Seq<(String, RefreshDevice)>,
    n: int,
    k: int,
    udid: Seq<char>,
    path: Seq<char>,
)
    requires
        0 <= n <= devices.len(),
        0 <= k < devices_entries(devices, n).len(),
        devices_entries(devices, n)[k] matches EntryModel::Item(_, a) && (a
            == ActionModel::RefreshApp(udid, path) || a == ActionModel::ForgetApp(udid, path)),
    ensures
        exists|i: int, j: int|
            0 <= i < devices.len() && 0 <= j < devices[i].1.apps@.len() && (
            #[trigger] devices[i]).0@ == udid && (#[trigger] devices[i].1.apps@[j]).path@ == path,
    decreases n,
{
    let head = devices_entries(devices, n - 1);
    let (id, device) = (devices[n - 1].0@, devices[n - 1].1);
    if k < head.len() {
        assert(devices_entries(devices, n)[k] == head[k]);
        lemma_device_of_entry(devices, n - 1, k, udid, path);
    } else {
        let own = device_entries(id, device);
        let q = k - head.len();
        assert(devices_entries(devices, n)[k] == own[q]);
        let apps = apps_entries(id, device.apps@, device.apps@.len() as int);
        assert(own[q] == if q == 0 {
            EntryModel::Header("header-"@ + id, device.name@)
        } else if q - 1 < apps.len() {
            apps[q - 1]
        } else {
            EntryModel::Separator
        });
        let j = lemma_app_of_entry(
            id,
            device.apps@,
            device.apps@.len() as int,
            q - 1,
            udid,
            path,
        );
        assert(devices[n - 1].0@ == udid);
        assert(devices[n - 1].1.apps@[j].path@ == path);
    }
}

proof fn lemma_app_of_entry(
    id: Seq<char>,
    apps: Seq<RefreshApp>,
    n: int,
    k: int,
    udid: Seq<char>,
    path: Seq<char>,
) -> (j: int)
    requires
        0 <= n <= apps.len(),
        0 <= k < apps_entries(id, apps, n).len(),
        apps_entries(id, apps, n)[k] matches EntryModel::Item(_, a) && (a == ActionModel::RefreshApp(
            udid,
            path,
        ) || a == ActionModel::ForgetApp(udid, path)),
    ensures
        0 <= j < n,
        id == udid,
        apps[j].path@ == path,
    decreases n,
{
    let head = apps_entries(id, apps, n - 1);
    if k < head.len() {
        assert(apps_entries(id, apps, n)[k] == head[k]);
        lemma_app_of_entry(id, apps, n - 1, k, udid, path)
    } else {
        let own = app_entries(id, apps[n - 1]);
        let q = k - head.len();
        assert(apps_entries(id, apps, n)[k] == own[q]);
        assert(q == 0 || q == 1 || q == 2 || q == 3);
        n - 1
    }
}

/// Progress is shown between nothing and a hundred percent, and as it is in between.
pub proof fn law_percentage_is_bounded(progress: int)
    ensures
        0 <= percentage(progress) <= 100,
        0 <= progress <= 100 ==> percentage(progress) == progress,
        progress < 0 ==> percentage(progress) == 0,
        progress > 100 ==> percentage(progress) == 100,
{
}

/// The label of an app begins with its name.
pub proof fn law_label_names_the_app(app: RefreshApp, name: String)
    requires
        app.name == Some(name),
    ensures
        name@.len() <= app_label(app).len() && app_label(app).take(name@.len() as int) == name@,
{
    assert(app_label(app).take(name@.len() as int) =~= name@);
}

/// The bar is the same seen from above and from below, and from either end.
pub proof fn law_bar_is_symmetric(x: int, y: int, w: int, h: int)
    requires
        0 < h <= w,
    ensures
        in_pill(x, y, w, h) == in_pill(x, h - 1 - y, w, h),
        in_pill(x, y, w, h) == in_pill(w - 1 - x, y, w, h),
{
    let a = 2 * y + 1 - h;
    let b = 2 * (h - 1 - y) + 1 - h;
    assert(b == -a);
    assert(a * a == b * b) by (nonlinear_arith)
        requires
            b == -a,
    ;
    let c = 2 * x + 1 - h;
    let d = 2 * (w - 1 - x) + 1 + h - 2 * w;
    assert(d == -c);
    assert(c * c == d * d) by (nonlinear_arith)
        requires
            d == -c,
    ;
    let e = 2 * x + 1 + h - 2 * w;
    let f = 2 * (w - 1 - x) + 1 - h;
    assert(f == -e);
    assert(e * e == f * f) by (nonlinear_arith)
        requires
            f == -e,
    ;
    assert(w - h / 2 >= h / 2);
}

/// Beside the icon a full bar shows nothing unfilled and an empty one nothing filled; the icon itself
/// stays as it is.
pub proof fn law_bar_shows_the_progress(
    inner: Pixel,
    width: int,
    height: int,
    progress: int,
    x: int,
    y: int,
)
    ensures
        ({
            let p = progress_pixel(inner, width, height, progress, x, y);
            &&& x < width ==> p == inner
            &&& x >= width ==> p == white(BAR_FILL_ALPHA) || p == white(BAR_TRACK_ALPHA) || p
                == clear()
            &&& x >= width && progress >= 100 ==> p != white(BAR_TRACK_ALPHA)
            &&& x >= width && progress <= 0 ==> p != white(BAR_FILL_ALPHA)
            &&& width <= x < width + BAR_GAP ==> p == clear()
        }),
{
    law_bar_grows(progress, progress);
}

/// Each kept app of each device can be refreshed and forgotten from the menu, which else offers to open
/// the program and to leave it, and nothing more where no app is kept.
pub proof fn law_kept_apps_are_offered(
    app_name: Seq<char>,
    devices: Seq<(String, RefreshDevice)>,
    i: int,
    j: int,
)
    ensures
        ({
            let menu = menu_entries(app_name, devices);
            &&& menu.len() >= 3
            &&& menu[0] == EntryModel::Item("Open"@, ActionModel::Show)
            &&& menu.last() == EntryModel::Item("Quit "@ + app_name, ActionModel::Quit)
            &&& 0 <= i < devices.len() && 0 <= j < devices[i].1.apps@.len() ==> {
                let udid = devices[i].0@;
                let path = devices[i].1.apps@[j].path@;
                &&& menu.contains(
                    EntryModel::Item("Refresh Now"@, ActionModel::RefreshApp(udid, path)),
                )
                &&& menu.contains(
                    EntryModel::Item("Forget App"@, ActionModel::ForgetApp(udid, path)),
                )
            }
            &&& (forall|d: int| 0 <= d < devices.len() ==> (#[trigger] devices[d]).1.apps@.len() == 0)
                ==> menu.len() == 3
        }),
{
    let menu = menu_entries(app_name, devices);
    if 0 <= i < devices.len() && 0 <= j < devices[i].1.apps@.len() {
        let udid = devices[i].0@;
        let apps = devices[i].1.apps@;
        let path = apps[j].path@;
        let a = EntryModel::Item("Refresh Now"@, ActionModel::RefreshApp(udid, path));
        let b = EntryModel::Item("Forget App"@, ActionModel::ForgetApp(udid, path));
        assert(devices[i].1.apps@.len() > 0);
        lemma_app_is_listed(udid, apps, apps.len() as int, j);
        let own = apps_entries(udid, apps, apps.len() as int);
        let x = choose|x: int| 0 <= x < own.len() && own[x] == a;
        let y = choose|y: int| 0 <= y < own.len() && own[y] == b;
        let entries = device_entries(udid, devices[i].1);
        assert(entries[x + 1] == a && entries[y + 1] == b);
        lemma_device_is_listed(devices, devices.len() as int, i, a);
        lemma_device_is_listed(devices, devices.len() as int, i, b);
        let all = devices_entries(devices, devices.len() as int);
        let s = choose|s: int| 0 <= s < all.len() && all[s] == a;
        let t = choose|t: int| 0 <= t < all.len() && all[t] == b;
        assert(menu[s + 3] == a);
        assert(menu[t + 3] == b);
    }
}

proof fn lemma_app_is_listed(udid: Seq<char>, apps: Seq<RefreshApp>, n: int, j: int)
    requires
        0 <= j < n <= apps.len(),
    ensures
        apps_entries(udid, apps, n).contains(
            EntryModel::Item("Refresh Now"@, ActionModel::RefreshApp(udid, apps[j].path@)),
        ),
        apps_entries(udid, apps, n).contains(
            EntryModel::Item("Forget App"@, ActionModel::ForgetApp(udid, apps[j].path@)),
        ),
    decreases n,
{
    let a = EntryModel::Item("Refresh Now"@, ActionModel::RefreshApp(udid, apps[j].path@));
    let b = EntryModel::Item("Forget App"@, ActionModel::ForgetApp(udid, apps[j].path@));
    let head = apps_entries(udid, apps, n - 1);
    let all = apps_entries(udid, apps, n);
    if j < n - 1 {
        lemma_app_is_listed(udid, apps, n - 1, j);
        let x = choose|x: int| 0 <= x < head.len() && head[x] == a;
        let y = choose|y: int| 0 <= y < head.len() && head[y] == b;
        assert(all[x] == a && all[y] == b);
    } else {
        assert(all[head.len() as int + 1] == a);
        assert(all[head.len() as int + 2] == b);
    }
}

proof fn lemma_device_is_listed(
    devices: Seq<(String, RefreshDevice)>,
    n: int,
    i: int,
    e: EntryModel,
)
    requires
        0 <= i < n <= devices.len(),
        device_entries(devices[i].0@, devices[i].1).contains(e),
    ensures
        devices_entries(devices, n).contains(e),
    decreases n,
{
    let head = devices_entries(devices, n - 1);
    let last = device_entries(devices[n - 1].0@, devices[n - 1].1);
    let all = devices_entries(devices, n);
    if i < n - 1 {
        lemma_device_is_listed(devices, n - 1, i, e);
        let x = choose|x: int| 0 <= x < head.len() && head[x] == e;
        assert(all[x] == e);
    } else {
        let x = choose|x: int| 0 <= x < last.len() && last[x] == e;
        assert(all[head.len() + x] == e);
    }
}

/// The pixels of a picture do not share their samples.
pub proof fn law_pixels_are_apart(
    samples: Seq<u8>,
    width: int,
    x: int,
    y: int,
    red: u8,
    other_x: int,
    other_y: int,
)
    requires
        0 <= x < width && 0 <= other_x < width,
        0 <= y && 0 <= other_y,
        4 * (y * width + x) + 4 <= samples.len(),
        4 * (other_y * width + other_x) + 4 <= samples.len(),
        0 <= y * width + x && 0 <= other_y * width + other_x,
    ensures
        pixel_of(samples.update(4 * (y * width + x), red), width, x, y).red == red,
        x != other_x || y != other_y ==> pixel_of(
            samples.update(4 * (y * width + x), red),
            width,
            other_x,
            other_y,
        ) == pixel_of(samples, width, other_x, other_y),
{
    if y < other_y {
        assert(y * width + width <= other_y * width) by (nonlinear_arith)
            requires
                y + 1 <= other_y,
                width > 0,
        ;
    } else if other_y < y {
        assert(other_y * width + width <= y * width) by (nonlinear_arith)
            requires
                other_y + 1 <= y,
                width > 0,
        ;
    }
}

/// The bar has round ends: its middle is filled over its whole height, its corners are not, and nothing
/// lies outside.
pub proof fn law_bar_has_round_ends(x: int, y: int, w: int, h: int)
    requires
        4 <= h <= w,
    ensures
        h / 2 <= x < w - h / 2 && 0 <= y < h ==> in_pill(x, y, w, h),
        in_pill(x, y, w, h) ==> 0 <= x < w && 0 <= y < h,
        !in_pill(0, 0, w, h),
        !in_pill(w - 1, 0, w, h),
{
    assert((1 - h) * (1 - h) + (1 - h) * (1 - h) > h * h) by (nonlinear_arith)
        requires
            h >= 4,
    ;
    assert(2 * (w - 1) + 1 + h - 2 * w == h - 1);
    assert((h - 1) * (h - 1) == (1 - h) * (1 - h)) by (nonlinear_arith);
}

} // verus!
