//! Which pictures have to be made again, and which are still good.

use vstd::prelude::*;
use crate::cache::{Cache, Lookup, looked};
use crate::scene::menu::TRAILING_EM;
use crate::scene::windows::TitleTexture;
use crate::text::{chars, decimal, push_str, same, string, to_decimal};

verus! {

/// How many titles are kept. A title that rewrites itself constantly -- a clock, a progress
/// percentage -- would otherwise add a texture per frame.
pub const TITLES: usize = 64;

/// How many of the panel's labels are kept.
pub const LABELS: usize = 128;

/// A character in upper case, which may be more than one.
pub uninterp spec fn upper(c: char) -> Seq<char>;

/// `char::to_uppercase`, whose characters are handed over as a string. It follows the tables of
/// Unicode, and what it gives is said here only to depend on the character alone.
#[verifier::external_body]
fn uppercase(c: char) -> (out: String)
    ensures
        out@ == upper(c),
{
    c.to_uppercase().to_string()
}

/// A name's first letter in upper case, or a question mark of one that has none.
pub open spec fn initial_of(name: Seq<char>) -> Seq<char> {
    upper(
        if name.len() == 0 {
            '?'
        } else {
            name[0]
        },
    )
}

/// What stands for an application with no icon of its own. A letter rather than a blank or a
/// question mark: plenty of entries name an icon that is not installed, and a letter is at least
/// identifiable.
pub fn initial(name: &str) -> (out: String)
    ensures
        out@ == initial_of(name@),
{
    let letters = chars(name);
    uppercase(
        if letters.len() == 0 {
            '?'
        } else {
            letters[0]
        },
    )
}

/// What the launcher is showing: groups at the top level, applications inside one.
#[derive(Debug, Clone, Copy, PartialEq, Eq, Structural)]
pub enum Level {
    Groups,
    Apps,
}

/// What tells one list of bubbles from another. Level and count together: entering a group of the
/// same size as the group list would otherwise reuse the wrong pictures.
pub open spec fn fingerprint(level: Level, count: int) -> int {
    match level {
        Level::Groups => count,
        Level::Apps => count + 10_000,
    }
}

/// Which of the pictures that hang on one thing each were made for what is shown now.
#[derive(Debug)]
pub struct Pictures {
    /// The list of bubbles the labels and glyphs were made for, if any were.
    pub apps: Option<usize>,
    /// What the keyboard's face was drawn for, as its latches and its click, if it was. A modifier
    /// that is on and drawn as off types the wrong character and reads as a broken keymap.
    pub keys: Option<Latches>,
    /// What the status bar says, if it has been made.
    pub status: Option<String>,
    /// How finely the menu was rasterised, in millionths, if it was.
    pub menu: Option<u32>,
    /// Rasterised window titles.
    ///
    /// Keyed on the text rather than on a window because titles change while a window lives and two
    /// windows often share one.
    pub titles: Cache<TitleTexture>,
    /// Application icons for window title bars, by application. Nothing is recorded too, as an
    /// absent picture, so a window without an icon costs one search rather than one per frame.
    pub icons: Cache<Option<TitleTexture>>,
    /// The panel's labels, by size and text.
    pub labels: Cache<TitleTexture>,
    /// One key drawn on its own and raised, by which key and how it is latched.
    pub key_caps: Cache<TitleTexture>,
}

/// Everything that is drawn on the keyboard's face.
#[derive(Debug, Clone, Copy, PartialEq, Eq, Structural)]
pub struct Latches {
    pub shift: bool,
    pub ctrl: bool,
    pub alt: bool,
    /// The sound toggle is drawn on the face too. Left out, the speaker would keep the picture it
    /// had when the face was last rebuilt and only change the next time a modifier was pressed.
    pub click: bool,
}

/// A status bar's text, where it has been made.
pub open spec fn says(status: Option<String>) -> Option<Seq<char>> {
    match status {
        Some(text) => Some(text@),
        None => None,
    }
}

/// A label's key: the same word at two sizes is two pictures, and sharing them would render one of
/// the two blurry.
pub open spec fn label_key(size: nat, text: Seq<char>) -> Seq<char> {
    decimal(size).push('|') + text
}

impl Pictures {
    pub open spec fn wf(self) -> bool {
        self.titles.wf() && self.icons.wf() && self.labels.wf() && self.key_caps.wf()
    }

    pub fn new() -> (out: Pictures)
        ensures
            out.wf(),
            out.apps is None,
            out.keys is None,
            out.status is None,
            out.menu is None,
            out.titles.map() == Map::<Seq<char>, TitleTexture>::empty(),
            out.icons.map() == Map::<Seq<char>, Option<TitleTexture>>::empty(),
            out.labels.map() == Map::<Seq<char>, TitleTexture>::empty(),
            out.key_caps.map() == Map::<Seq<char>, TitleTexture>::empty(),
    {
        Pictures {
            apps: None,
            keys: None,
            status: None,
            menu: None,
            titles: Cache::new(),
            icons: Cache::new(),
            labels: Cache::new(),
            key_caps: Cache::new(),
        }
    }

    /// Whether the bubbles' pictures have to be made again.
    pub fn sync_apps(&self, level: Level, count: usize) -> (out: bool)
        requires
            count + 10_000 <= usize::MAX,
        ensures
            out == !(self.apps matches Some(made) && made == fingerprint(level, count as int)),
    {
        match self.apps {
            Some(made) => made != mark_of(level, count),
            None => true,
        }
    }

    /// The bubbles' pictures have been made.
    pub fn apps_made(&mut self, level: Level, count: usize)
        requires
            count + 10_000 <= usize::MAX,
        ensures
            *final(self) == (Pictures {
                apps: Some(fingerprint(level, count as int) as usize),
                ..*old(self)
            }),
    {
        self.apps = Some(mark_of(level, count));
    }

    /// Whether the keyboard's face has to be made again; from here on it is taken to be.
    pub fn sync_keyboard(&mut self, latches: Latches) -> (out: bool)
        ensures
            out == (old(self).keys != Some(latches)),
            *final(self) == (Pictures { keys: Some(latches), ..*old(self) }),
    {
        let stale: bool = match self.keys {
            Some(made) => made != latches,
            None => true,
        };
        self.keys = Some(latches);
        stale
    }

    /// Whether the status bar has to be made again; from here on it is taken to be, unless
    /// [`Pictures::status_failed`] says otherwise.
    pub fn sync_status(&mut self, wanted: &str) -> (out: bool)
        ensures
            out == (says(old(self).status) != Some(wanted@)),
            says(final(self).status) == Some(wanted@),
            *final(self) == (Pictures { status: final(self).status, ..*old(self) }),
    {
        let same_text: bool = match &self.status {
            Some(text) => same(chars(text.as_str()).as_slice(), chars(wanted).as_slice()),
            None => false,
        };
        if !same_text {
            self.status = Some(wanted.to_owned());
        }
        !same_text
    }

    /// The status bar could not be made, and there is none: it has to be made again whatever it is
    /// to say.
    pub fn status_failed(&mut self)
        ensures
            *final(self) == (Pictures { status: None, ..*old(self) }),
    {
        self.status = None;
    }

    /// A window's title: nothing to draw of an empty one, the picture it has, or one to be made
    /// after these have been let go.
    pub fn title_texture(&mut self, title: &str) -> (out: Lookup<TitleTexture>)
        requires
            old(self).wf(),
        ensures
            final(self).wf(),
            *final(self) == (Pictures { titles: final(self).titles, ..*old(self) }),
            looked(old(self).titles, final(self).titles, title@, TITLES as int, out),
    {
        self.titles.look(title, TITLES)
    }

    /// A title's picture has been made.
    pub fn title_made(&mut self, title: &str, texture: TitleTexture)
        requires
            old(self).wf(),
            !old(self).titles.map().contains_key(title@),
        ensures
            final(self).wf(),
            final(self).titles.map() == old(self).titles.map().insert(title@, texture),
            *final(self) == (Pictures { titles: final(self).titles, ..*old(self) }),
    {
        self.titles.insert(title, texture);
    }

    /// A window's application icon: what was found for it, or nothing where nothing has been looked
    /// for. Kept for ever, unlike a title: there are as many as there are distinct applications
    /// ever opened in a session.
    pub fn window_icon(&self, app_id: &str) -> (out: Option<Option<TitleTexture>>)
        requires
            self.wf(),
        ensures
            out == (if app_id@.len() == 0 {
                Some(None)
            } else if self.icons.map().contains_key(app_id@) {
                Some(self.icons.map()[app_id@])
            } else {
                None
            }),
    {
        if app_id.unicode_len() == 0 {
            return Some(None);
        }
        self.icons.get(app_id)
    }

    /// An application's icon has been looked for, and this came of it.
    pub fn icon_found(&mut self, app_id: &str, found: Option<TitleTexture>)
        requires
            old(self).wf(),
            !old(self).icons.map().contains_key(app_id@),
        ensures
            final(self).wf(),
            final(self).icons.map() == old(self).icons.map().insert(app_id@, found),
            *final(self) == (Pictures { icons: final(self).icons, ..*old(self) }),
    {
        self.icons.insert(app_id, found);
    }

    /// Whether a raised key's picture has to be made.
    pub fn sync_key_cap(&self, id: &str) -> (out: bool)
        requires
            self.wf(),
        ensures
            out == !self.key_caps.map().contains_key(id@),
    {
        self.key_caps.get(id).is_none()
    }

    /// A raised key's picture has been made.
    pub fn key_cap_made(&mut self, id: &str, texture: TitleTexture)
        requires
            old(self).wf(),
            !old(self).key_caps.map().contains_key(id@),
        ensures
            final(self).wf(),
            final(self).key_caps.map() == old(self).key_caps.map().insert(id@, texture),
            *final(self) == (Pictures { key_caps: final(self).key_caps, ..*old(self) }),
    {
        self.key_caps.insert(id, texture);
    }

    /// One of the panel's labels, at a pixel size: the picture it has, or one to be made after these
    /// have been let go.
    pub fn label(&mut self, size: u64, text: &str) -> (out: Lookup<TitleTexture>)
        requires
            old(self).wf(),
        ensures
            final(self).wf(),
            *final(self) == (Pictures { labels: final(self).labels, ..*old(self) }),
            looked(
                old(self).labels,
                final(self).labels,
                label_key(size as nat, text@),
                LABELS as int,
                out,
            ),
    {
        let key = key_for(size, text);
        self.labels.look(key.as_str(), LABELS)
    }

    /// A label's picture has been made.
    pub fn label_made(&mut self, size: u64, text: &str, texture: TitleTexture)
        requires
            old(self).wf(),
            !old(self).labels.map().contains_key(label_key(size as nat, text@)),
        ensures
            final(self).wf(),
            final(self).labels.map() == old(self).labels.map().insert(
                label_key(size as nat, text@),
                texture,
            ),
            *final(self) == (Pictures { labels: final(self).labels, ..*old(self) }),
    {
        let key = key_for(size, text);
        self.labels.insert(key.as_str(), texture);
    }

    /// Whether the open menu has to be rasterised again: its list changed, or the eye gets it at
    /// a resolution more than two hundredths away from the one it was made for.
    pub fn sync_menu(&self, differs: bool, scale: u32) -> (out: bool)
        ensures
            out == (differs || !(self.menu matches Some(made) && is_close(made, scale))),
    {
        if differs {
            return true;
        }
        match self.menu {
            Some(made) => {
                let apart: u64 = if made < scale {
                    (scale - made) as u64
                } else {
                    (made - scale) as u64
                };
                apart * 50 > scale as u64
            },
            None => true,
        }
    }

    /// The menu has been rasterised.
    pub fn menu_made(&mut self, scale: u32)
        ensures
            *final(self) == (Pictures { menu: Some(scale), ..*old(self) }),
    {
        self.menu = Some(scale);
    }

    /// The menu could not be rasterised, and the one there was is gone.
    pub fn menu_failed(&mut self)
        ensures
            *final(self) == (Pictures { menu: None, ..*old(self) }),
    {
        self.menu = None;
    }
}

/// Whether a scale is within two hundredths of another.
pub open spec fn is_close(made: u32, scale: u32) -> bool {
    crate::pointer::between(made as int, scale as int) * 50 <= scale
}

fn mark_of(level: Level, count: usize) -> (out: usize)
    requires
        count + 10_000 <= usize::MAX,
    ensures
        out == fingerprint(level, count as int),
{
    match level {
        Level::Groups => count,
        Level::Apps => count + 10_000,
    }
}

fn key_for(size: u64, text: &str) -> (out: String)
    ensures
        out@ == label_key(size as nat, text@),
        out@.len() > 0,
{
    let mut key = to_decimal(size);
    key.push('|');
    push_str(&mut key, text);
    string(key.as_slice())
}

/// Two labels share a picture only where they are the same text at the same size.
pub proof fn labels_do_not_share_pictures(a: nat, s: Seq<char>, b: nat, t: Seq<char>)
    requires
        label_key(a, s) == label_key(b, t),
    ensures
        a == b,
        s == t,
{
    let key = label_key(a, s);
    assert(key == label_key(b, t));
    let da = decimal(a);
    let db = decimal(b);
    crate::text::lemma_decimal(a);
    crate::text::lemma_decimal(b);
    if da.len() < db.len() {
        assert(key[da.len() as int] == '|');
        assert(label_key(b, t)[da.len() as int] == db[da.len() as int]);
    }
    if db.len() < da.len() {
        assert(label_key(b, t)[db.len() as int] == '|');
        assert(key[db.len() as int] == da[db.len() as int]);
    }
    assert(da =~= db) by {
        assert forall|i: int| 0 <= i < da.len() implies da[i] == db[i] by {
            assert(key[i] == da[i]);
            assert(label_key(b, t)[i] == db[i]);
        }
    }
    assert(s =~= key.skip(da.len() as int + 1));
    assert(t =~= label_key(b, t).skip(db.len() as int + 1));
}

/// The measures a menu's text is rasterised by, in thousandths of a panel pixel.
#[derive(Debug, Clone, Copy, PartialEq, Eq, Structural)]
pub struct Type {
    pub width: u32,
    pub text_width: u32,
    pub title_em: u32,
    pub row_em: u32,
    pub detail_em: u32,
    pub footer_em: u32,
}

/// Device pixels per panel pixel, in millionths, and never under a twentieth: everything is laid
/// out in panel pixels and rasterised at the resolution the wearer's eye actually gets. The card
/// spans 62 hundredths of the horizontal field, which is given in thousandths of a degree, as is how
/// many pixels there are to one.
pub open spec fn scale_of(field: int, density: int, width: int) -> int {
    let scale = field * density * 62 * 10 / width;
    if scale < 50_000 {
        50_000
    } else {
        scale
    }
}

/// Device pixels per panel pixel, in millionths.
pub fn menu_scale(field: u32, density: u32, width: u32) -> (out: u32)
    requires
        width > 0,
        scale_of(field as int, density as int, width as int) <= u32::MAX,
    ensures
        out == scale_of(field as int, density as int, width as int),
{
    assert(0 <= field * density <= 0xffff_ffff * 0xffff_ffff) by (nonlinear_arith)
        requires
            0 <= field <= 0xffff_ffff,
            0 <= density <= 0xffff_ffff,
    ;
    let scale: u128 = field as u128 * density as u128 * 62 * 10 / width as u128;
    if scale < 50_000 {
        50_000
    } else {
        scale as u32
    }
}

/// How tall a card may be before its rows scroll, in thousandths of a panel pixel: 68 hundredths of
/// the vertical field, at as many panel pixels to a degree as the card has across.
pub open spec fn budget_of(across: int, down: int, width: int) -> int {
    down * 68 * width / (across * 62)
}

/// How tall a card may be before its rows scroll, in thousandths of a panel pixel.
pub fn menu_budget(across: u32, down: u32, width: u32) -> (out: u128)
    requires
        across > 0,
    ensures
        out == budget_of(across as int, down as int, width as int),
{
    assert(0 <= down * 68 * width <= 0xffff_ffff * 68 * 0xffff_ffff) by (nonlinear_arith)
        requires
            0 <= down <= 0xffff_ffff,
            0 <= width <= 0xffff_ffff,
    ;
    down as u128 * 68 * width as u128 / (across as u128 * 62)
}

/// A piece of text to rasterise: how large, in thousandths of a device pixel, and within what
/// width in device pixels, onto as many lines as it takes or onto one.
#[derive(Debug, Clone, PartialEq, Eq)]
pub struct Raster {
    pub text: String,
    pub size: u64,
    pub width: u64,
    pub wraps: bool,
}

/// A raster and the characters it is made of.
pub struct RasterView {
    pub text: Seq<char>,
    pub size: int,
    pub width: int,
    pub wraps: bool,
}

impl View for Raster {
    type V = RasterView;

    open spec fn view(&self) -> RasterView {
        RasterView {
            text: self.text@,
            size: self.size as int,
            width: self.width as int,
            wraps: self.wraps,
        }
    }
}

/// One row of a menu.
#[derive(Debug, Clone, PartialEq, Eq)]
pub struct MenuRow {
    pub label: String,
    pub trailing: Option<String>,
}

/// A menu as it is to be drawn.
#[derive(Debug, Clone, PartialEq, Eq)]
pub struct MenuModel {
    pub title: String,
    pub rows: Vec<MenuRow>,
    pub detail: String,
    pub footer: String,
}

/// A size on the device, and never under one pixel.
pub open spec fn on_device(em: int, scale: int) -> int {
    let size = em * scale / 1_000_000;
    if size < 1_000 {
        1_000
    } else {
        size
    }
}

/// The width of a menu's text on the device, in whole pixels.
pub open spec fn content_width(text_width: int, scale: int) -> int {
    text_width * scale / 1_000_000_000
}

/// One line, given far more width than it can use so it never wraps. A row that wrapped would be
/// drawn as two lines squeezed into the height of one.
pub open spec fn line(text: Seq<char>, em: int, t: Type, scale: int) -> RasterView {
    RasterView {
        text,
        size: on_device(em, scale),
        width: content_width(t.text_width as int, scale) * 4,
        wraps: false,
    }
}

/// One row's lines.
pub open spec fn row_lines(row: MenuRow, t: Type, scale: int) -> Seq<RasterView> {
    match row.trailing {
        Some(trailing) => seq![
            line(row.label@, t.row_em as int, t, scale),
            line(trailing@, TRAILING_EM as int, t, scale),
        ],
        None => seq![line(row.label@, t.row_em as int, t, scale)],
    }
}

/// The first so many rows' lines.
pub open spec fn rows_lines(rows: Seq<MenuRow>, t: Type, scale: int) -> Seq<RasterView>
    decreases rows.len(),
{
    if rows.len() == 0 {
        Seq::empty()
    } else {
        rows_lines(rows.drop_last(), t, scale) + row_lines(rows.last(), t, scale)
    }
}

/// The explanation, where there is one: the one thing that *should* wrap, so it gets exactly the
/// content width and keeps it.
pub open spec fn detail_lines(detail: Seq<char>, t: Type, scale: int) -> Seq<RasterView> {
    if detail.len() == 0 {
        Seq::empty()
    } else {
        seq![
            RasterView {
                text: detail,
                size: on_device(t.detail_em as int, scale),
                width: content_width(t.text_width as int, scale),
                wraps: true,
            },
        ]
    }
}

/// The hints, where there are any.
pub open spec fn footer_lines(footer: Seq<char>, t: Type, scale: int) -> Seq<RasterView> {
    if footer.len() == 0 {
        Seq::empty()
    } else {
        seq![line(footer, t.footer_em as int, t, scale)]
    }
}

/// Everything a menu is rasterised out of: its title, its rows, its explanation and its hints. It
/// is done a piece at a time, because the pieces have different lives.
pub open spec fn menu_lines(model: MenuModel, t: Type, scale: int) -> Seq<RasterView> {
    seq![line(model.title@, t.title_em as int, t, scale)] + rows_lines(model.rows@, t, scale)
        + detail_lines(model.detail@, t, scale) + footer_lines(model.footer@, t, scale)
}

/// A list of rasters, each as what it says.
pub open spec fn rasters(v: Seq<Raster>) -> Seq<RasterView> {
    v.map_values(|r: Raster| r@)
}

fn device_size(em: u32, scale: u32) -> (out: u64)
    ensures
        out == on_device(em as int, scale as int),
{
    assert(0 <= em * scale <= 0xffff_ffff * 0xffff_ffff) by (nonlinear_arith)
        requires
            0 <= em <= 0xffff_ffff,
            0 <= scale <= 0xffff_ffff,
    ;
    let size: u64 = em as u64 * scale as u64 / 1_000_000;
    if size < 1_000 {
        1_000
    } else {
        size
    }
}

fn text_pixels(text_width: u32, scale: u32) -> (out: u64)
    ensures
        out == content_width(text_width as int, scale as int),
        out <= 0x1_0000_0000_0000,
{
    assert(0 <= text_width * scale <= 0xffff_ffff * 0xffff_ffff) by (nonlinear_arith)
        requires
            0 <= text_width <= 0xffff_ffff,
            0 <= scale <= 0xffff_ffff,
    ;
    text_width as u64 * scale as u64 / 1_000_000_000
}

fn add_line(out: &mut Vec<Raster>, text: &String, em: u32, t: Type, scale: u32)
    ensures
        rasters(final(out)@) == rasters(old(out)@).push(line(text@, em as int, t, scale as int)),
{
    let ghost was = out@;
    out.push(
        Raster {
            text: text.clone(),
            size: device_size(em, scale),
            width: text_pixels(t.text_width, scale) * 4,
            wraps: false,
        },
    );
    assert(rasters(out@) =~= rasters(was).push(out@.last()@));
}

/// Everything a menu is rasterised out of, in order: its title, each row's label and then its
/// trailing status, its explanation and its hints.
pub fn menu_rasters(model: &MenuModel, t: Type, scale: u32) -> (out: Vec<Raster>)
    ensures
        rasters(out@) == menu_lines(*model, t, scale as int),
{
    let mut out: Vec<Raster> = Vec::new();
    assert(rasters(out@) =~= Seq::empty());
    add_line(&mut out, &model.title, t.title_em, t, scale);
    let ghost titled = rasters(out@);
    assert(titled =~= seq![line(model.title@, t.title_em as int, t, scale as int)]);
    let mut i: usize = 0;
    assert(titled =~= titled + rows_lines(model.rows@.take(0), t, scale as int));
    while i < model.rows.len()
        invariant
            i <= model.rows.len(),
            rasters(out@) == titled + rows_lines(model.rows@.take(i as int), t, scale as int),
        decreases model.rows.len() - i,
    {
        let row = &model.rows[i];
        let ghost before = rasters(out@);
        assert(model.rows@.take(i + 1).drop_last() =~= model.rows@.take(i as int));
        add_line(&mut out, &row.label, t.row_em, t, scale);
        if let Some(trailing) = &row.trailing {
            add_line(&mut out, trailing, TRAILING_EM as u32, t, scale);
        }
        assert(rasters(out@) =~= before + row_lines(*row, t, scale as int));
        assert(rasters(out@) =~= titled + rows_lines(
            model.rows@.take(i + 1),
            t,
            scale as int,
        ));
        i = i + 1;
    }
    assert(model.rows@.take(i as int) =~= model.rows@);
    let ghost rowed = rasters(out@);
    if model.detail.as_str().unicode_len() > 0 {
        let ghost was = out@;
        out.push(
            Raster {
                text: model.detail.clone(),
                size: device_size(t.detail_em, scale),
                width: text_pixels(t.text_width, scale),
                wraps: true,
            },
        );
        assert(rasters(out@) =~= rasters(was).push(out@.last()@));
    }
    assert(rasters(out@) =~= rowed + detail_lines(model.detail@, t, scale as int));
    let ghost detailed = rasters(out@);
    if model.footer.as_str().unicode_len() > 0 {
        add_line(&mut out, &model.footer, t.footer_em, t, scale);
    }
    assert(rasters(out@) =~= detailed + footer_lines(model.footer@, t, scale as int));
    out
}

/// An explanation's height in thousandths of a panel pixel, from the height it was rasterised at:
/// the one thing the layout cannot work out for itself.
pub fn detail_height(pixels: u32, scale: u32) -> (out: u64)
    requires
        scale > 0,
    ensures
        out == pixels * 1_000_000_000 / (scale as int),
{
    pixels as u64 * 1_000_000_000 / scale as u64
}

/// Two lists of bubbles are told apart by what they are lists of and by how many there are.
pub proof fn two_lists_are_told_apart(a: Level, n: int, b: Level, m: int)
    requires
        0 <= n < 10_000,
        0 <= m < 10_000,
    ensures
        fingerprint(a, n) == fingerprint(b, m) <==> a == b && n == m,
{
}

/// A picture is near enough in size to be kept where it is within two hundredths of what is wanted,
/// either way.
pub proof fn a_picture_near_enough_is_kept(made: u32, scale: u32)
    ensures
        is_close(scale, scale),
        is_close(made, scale) <==> 49 * scale <= 50 * made && 50 * made <= 51 * scale,
{
}

/// The card spans its share of the field at the density the eye gets: so many pixels to a degree,
/// over so many degrees, for each pixel of the panel across; and it may be as tall as its share of
/// the field down at as many panel pixels to a degree.
pub proof fn the_card_spans_its_share(field: u32, density: u32, down: u32, width: u32)
    requires
        width > 0,
        field > 0,
    ensures
        ({
            let scale = scale_of(field as int, density as int, width as int);
            let budget = budget_of(field as int, down as int, width as int);
            &&& scale >= 50_000
            &&& scale > 50_000 ==> scale * width <= field * density * 620 < (scale + 1) * width
            &&& budget * (field * 62) <= down * 68 * width < (budget + 1) * (field * 62)
        }),
{
    let n = field as int * density * 62 * 10;
    assert(n == field * density * 620) by (nonlinear_arith)
        requires
            n == field as int * density * 62 * 10,
    ;
    let w = width as int;
    assert((n / w) * w <= n < (n / w + 1) * w) by (nonlinear_arith)
        requires
            w > 0,
    ;
    let m = down as int * 68 * width;
    let d = field as int * 62;
    assert((m / d) * d <= m < (m / d + 1) * d) by (nonlinear_arith)
        requires
            d > 0,
    ;
}

/// A size on the device is its size on the panel, scaled, and never under a pixel; the width of the
/// text is scaled with it.
pub proof fn text_is_scaled_with_the_card(em: int, text_width: int, scale: int)
    requires
        0 <= em,
        0 <= text_width,
        0 <= scale,
    ensures
        on_device(em, scale) >= 1_000,
        on_device(em, scale) > 1_000 ==> on_device(em, scale) * 1_000_000 <= em * scale < (
        on_device(em, scale) + 1) * 1_000_000,
        em >= 1_000 ==> on_device(em, 1_000_000) == em,
        content_width(text_width, scale) * 1_000_000_000 <= text_width * scale < (content_width(
            text_width,
            scale,
        ) + 1) * 1_000_000_000,
{
    assert(em * 1_000_000 / 1_000_000 == em);
}

/// A menu is rasterised in the order it is read: its title, each row's label and then its status,
/// its explanation, and its hints. Only the explanation wraps, and it has exactly the text's width
/// to do it in; nothing is rasterised of what is not there.
pub proof fn a_menu_is_rasterised_as_it_is_read(
    model: MenuModel,
    rows: Seq<MenuRow>,
    row: MenuRow,
    t: Type,
    scale: int,
)
    ensures
        menu_lines(model, t, scale)[0].text == model.title@,
        rows_lines(rows.push(row), t, scale) == rows_lines(rows, t, scale) + row_lines(
            row,
            t,
            scale,
        ),
        row_lines(row, t, scale)[0].text == row.label@,
        row.trailing matches Some(trailing) ==> row_lines(row, t, scale).len() == 2 && row_lines(
            row,
            t,
            scale,
        )[1].text == trailing@,
        row.trailing is None ==> row_lines(row, t, scale).len() == 1,
        forall|i: int|
            0 <= i < row_lines(row, t, scale).len() ==> !(#[trigger] row_lines(row, t, scale)[i]).wraps,
        model.detail@.len() == 0 ==> detail_lines(model.detail@, t, scale).len() == 0,
        model.detail@.len() > 0 ==> detail_lines(model.detail@, t, scale).len() == 1
            && detail_lines(model.detail@, t, scale)[0].wraps && detail_lines(
            model.detail@,
            t,
            scale,
        )[0].text == model.detail@ && detail_lines(model.detail@, t, scale)[0].width
            == content_width(t.text_width as int, scale),
        model.footer@.len() > 0 ==> menu_lines(model, t, scale).last().text == model.footer@,
        menu_lines(model, t, scale).len() == 1 + rows_lines(model.rows@, t, scale).len()
            + detail_lines(model.detail@, t, scale).len() + footer_lines(
            model.footer@,
            t,
            scale,
        ).len(),
{
    assert(rows.push(row).drop_last() =~= rows);
}

/// What stands for an application is made of the first letter of its name and of nothing else of it.
pub proof fn an_initial_is_the_first_letter(name: Seq<char>, rest: Seq<char>)
    ensures
        name.len() > 0 ==> initial_of(name) == upper(name[0]),
        name.len() > 0 ==> initial_of(name + rest) == initial_of(name),
        name.len() == 0 ==> initial_of(name) == upper('?'),
{
}

} // verus!
