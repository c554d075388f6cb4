//! The icon in the system tray, its menu and its event loop.

use resvg::tiny_skia::{Pixmap, Transform};
use resvg::usvg::{Options, Tree};
use vstd::prelude::*;

use crate::svg::{declared_size, is_plain, plain_size};

verus! {

/// The entry of the menu that opens the settings.
pub const OPEN_LABEL: &'static str = "Open Beam Settings";

/// The entry of the menu that ends Beam.
pub const QUIT_LABEL: &'static str = "Quit Beam";

/// The text that is shown over the icon.
pub const TOOLTIP: &'static str = "Beam";

/// The icon: a screen with a beam of light that leaves it.
pub const ICON: &'static str = "<svg xmlns=\"http://www.w3.org/2000/svg\" width=\"32\" height=\"32\">
<rect x=\"2\" y=\"5\" width=\"20\" height=\"22\" fill=\"#1f2937\"/>
<rect x=\"4\" y=\"7\" width=\"16\" height=\"18\" fill=\"#38bdf8\"/>
<path d=\"M12 16L30 8V24Z\" fill=\"#f8fafc\"/>
</svg>
";

/// How long the event loop sleeps at most, in milliseconds.
pub const WAKE_MILLIS: u64 = 2;

/// What choosing an entry of the menu does.
#[derive(Clone, Copy, Debug, PartialEq, Eq, Structural)]
pub enum MenuAction {
    OpenSettings,
    Quit,
    Ignore,
}

/// Decides on the entry that was chosen: the one that opens the settings, the one that quits, or
/// another.
pub fn menu_action(is_open: bool, is_quit: bool) -> (action: MenuAction)
    ensures
        action == if is_open {
            MenuAction::OpenSettings
        } else if is_quit {
            MenuAction::Quit
        } else {
            MenuAction::Ignore
        },
{
    if is_open {
        MenuAction::OpenSettings
    } else if is_quit {
        MenuAction::Quit
    } else {
        MenuAction::Ignore
    }
}

/// What the event loop does on an event.
#[derive(Clone, Copy, Debug, PartialEq, Eq, Structural)]
pub enum TrayStep {
    /// End the loop.
    Exit,
    /// Put the icon in the tray.
    ShowIcon,
    /// Wait for the next event.
    Wait,
}

/// Whether the icon is in the tray.
pub struct TrayLoop {
    pub shown: bool,
}

/// The step of the loop. The icon is shown at the first batch of events, as the platform is not
/// ready before.
pub open spec fn step_of(shown: bool, shutdown: bool, new_events: bool) -> TrayStep {
    if shutdown {
        TrayStep::Exit
    } else if !shown && new_events {
        TrayStep::ShowIcon
    } else {
        TrayStep::Wait
    }
}

impl TrayLoop {
    pub fn new() -> (tray: TrayLoop)
        ensures
            !tray.shown,
    {
        TrayLoop { shown: false }
    }

    /// Decides on an event; `new_events` where it begins a batch.
    pub fn on_event(&mut self, shutdown: bool, new_events: bool) -> (step: TrayStep)
        ensures
            step == step_of(old(self).shown, shutdown, new_events),
            final(self).shown == (old(self).shown || step is ShowIcon),
    {
        if shutdown {
            TrayStep::Exit
        } else if !self.shown && new_events {
            self.shown = true;
            TrayStep::ShowIcon
        } else {
            TrayStep::Wait
        }
    }
}

/// The icon is in the tray after the given events, each with what the loop was told of it.
pub open spec fn shown_after(events: Seq<(bool, bool)>) -> bool
    decreases events.len(),
{
    if events.len() == 0 {
        false
    } else {
        let shown = shown_after(events.drop_last());
        shown || step_of(shown, events.last().0, events.last().1) is ShowIcon
    }
}

/// The icon is put in the tray once at most: an event that asks for it is followed by none that
/// asks again.
pub proof fn law_icon_is_shown_once(before: Seq<(bool, bool)>, after: Seq<(bool, bool)>, next: (
    bool,
    bool,
))
    requires
        shown_after(before),
    ensures
        shown_after(before + after),
        !(step_of(shown_after(before + after), next.0, next.1) is ShowIcon),
    decreases after.len(),
{
    let all = before + after;
    if after.len() == 0 {
        assert(all =~= before);
    } else {
        assert(all.drop_last() =~= before + after.drop_last());
        law_icon_is_shown_once(before, after.drop_last(), next);
    }
}

/// `resvg::usvg::Error`, which is told apart from success and not looked into.
#[verifier::external_type_specification]
#[verifier::external_body]
pub struct ExSvgError(resvg::usvg::Error);

/// `resvg::usvg::Tree`, which is carried from parsing to drawing and not looked into.
#[verifier::external_type_specification]
#[verifier::external_body]
pub struct ExSvgTree(Tree);

/// The drawing that a plain file holds; `None` where its pieces do not fit together.
pub uninterp spec fn drawing_in(file: Seq<u8>) -> Option<Tree>;

/// `resvg::usvg::Tree::from_data`, with `Tree::size` rounded to whole pixels: the drawing in a
/// plain file rests on the bytes alone, and has the size that the file declares. Other files are
/// left out, as some of them make the parser panic: sides out of bounds, filters, markers.
#[verifier::external_body]
fn parse_svg(svg: &[u8]) -> (parsed: Result<(Tree, u32, u32), resvg::usvg::Error>)
    requires
        is_plain(svg@),
    ensures
        match parsed {
            Ok(drawing) => drawing_in(svg@) == Some(drawing.0) && declared_size(svg@) == (
                drawing.1 as nat,
                drawing.2 as nat,
            ),
            Err(_) => drawing_in(svg@) is None,
        },
{
    let tree = Tree::from_data(svg, &Options::default())?;
    let size = tree.size().to_int_size();
    Ok((tree, size.width(), size.height()))
}

/// The longest side of an icon, in pixels.
pub const MAX_SIDE: u32 = 1_024;

/// A picture of this size is drawn: it has pixels, and neither side is too long.
pub open spec fn drawable(width: u32, height: u32) -> bool {
    0 < width <= MAX_SIDE && 0 < height <= MAX_SIDE
}

/// `tree` is the drawing in a plain file of this size.
pub open spec fn is_drawing_of(tree: Tree, file: Seq<u8>, width: u32, height: u32) -> bool {
    &&& is_plain(file)
    &&& declared_size(file) == (width as nat, height as nat)
    &&& drawing_in(file) == Some(tree)
}

/// The pixels of the drawing in a plain file.
pub uninterp spec fn pixels_of(file: Seq<u8>) -> Seq<u8>;

/// `resvg::render` into a new `resvg::tiny_skia::Pixmap`: draws the drawing of a plain file from
/// its corner on, in premultiplied RGBA, four bytes for each pixel. Filled shapes with straight
/// sides are drawn the same everywhere, so the pixels rest on the file alone. Drawings from other
/// files are left out, as some of them panic: filters and layers that reach too far.
#[verifier::external_body]
fn draw(tree: &Tree, width: u32, height: u32) -> (rgba: Vec<u8>)
    requires
        drawable(width, height),
        exists|file: Seq<u8>| #[trigger] is_drawing_of(*tree, file, width, height),
    ensures
        rgba@.len() == 4 * width * height,
        forall|file: Seq<u8>| #[trigger]
            is_drawing_of(*tree, file, width, height) ==> rgba@ == pixels_of(file),
{
    let mut image = Pixmap::new(width, height).unwrap();
    resvg::render(tree, Transform::default(), &mut image.as_mut());
    image.take()
}

/// A picture in RGBA.
pub struct IconImage {
    pub rgba: Vec<u8>,
    pub width: u32,
    pub height: u32,
}

impl IconImage {
    /// The pixels fill the picture, which is of a size that is drawn.
    pub open spec fn wf(&self) -> bool {
        &&& drawable(self.width, self.height)
        &&& self.rgba@.len() == 4 * self.width * self.height
    }
}

/// Why there is no icon.
#[derive(Clone, Copy, Debug, PartialEq, Eq, Structural)]
pub enum IconError {
    InvalidSvg,
    InvalidSize,
}

/// The size at which an icon is drawn: that of its file, where it can be drawn.
pub fn icon_size(width: u32, height: u32) -> (size: Result<(u32, u32), IconError>)
    ensures
        size == if drawable(width, height) {
            Ok::<(u32, u32), IconError>((width, height))
        } else {
            Err(IconError::InvalidSize)
        },
{
    if width == 0 || height == 0 || width > MAX_SIDE || height > MAX_SIDE {
        Err(IconError::InvalidSize)
    } else {
        Ok((width, height))
    }
}

/// Draws the icon from an SVG file, at the size that the file declares. A file that is not plain
/// or holds no drawing is refused as such, and one whose drawing is too large for its size.
pub fn icon(svg: &[u8]) -> (icon: Result<IconImage, IconError>)
    ensures
        match icon {
            Ok(image) => {
                &&& is_plain(svg@)
                &&& drawing_in(svg@) is Some
                &&& declared_size(svg@) == (image.width as nat, image.height as nat)
                &&& image.wf()
                &&& image.rgba@ == pixels_of(svg@)
            },
            Err(IconError::InvalidSvg) => !is_plain(svg@) || drawing_in(svg@) is None,
            Err(IconError::InvalidSize) => {
                &&& is_plain(svg@)
                &&& drawing_in(svg@) is Some
                &&& declared_size(svg@).0 > MAX_SIDE || declared_size(svg@).1 > MAX_SIDE
            },
        },
{
    if plain_size(svg).is_none() {
        return Err(IconError::InvalidSvg);
    }
    match parse_svg(svg) {
        Ok((tree, width, height)) => match icon_size(width, height) {
            Ok((width, height)) => {
                assert(is_drawing_of(tree, svg@, width, height));
                Ok(IconImage { rgba: draw(&tree, width, height), width, height })
            },
            Err(error) => Err(error),
        },
        Err(_) => Err(IconError::InvalidSvg),
    }
}

/// The loop ends as soon as it is told to; else the icon is shown at the first batch of events,
/// and nothing is done at any other time.
pub proof fn law_the_loop_ends_when_told(shown: bool, new_events: bool)
    ensures
        step_of(shown, true, new_events) is Exit,
        step_of(false, false, true) is ShowIcon,
        step_of(true, false, new_events) is Wait,
        step_of(shown, false, false) is Wait,
{
}

/// Icons are drawn from one pixel on up to 1024 on each side.
pub proof fn law_icons_have_a_size(width: u32, height: u32)
    ensures
        drawable(width, height) <==> 1 <= width <= 1024 && 1 <= height <= 1024,
{
}

} // verus!
