//! A minimal, self-contained library for simple GUI message dialogs.
//!
//! The core is a pure, connection-agnostic renderer and interaction engine:
//! it word-wraps a message, lays out an icon, the text and a row of buttons
//! into a fixed-size premultiplied-ARGB pixel buffer, and turns input events
//! into a final [`Answer`]. Talking to a display server (and querying the
//! desktop for its preferred theme) is left to a thin driver around this
//! crate: the driver waits for raw events, hands them to a [`session::Session`],
//! performs the actions the session asks for, and uploads the canvas.

use vstd::prelude::*;
use vstd::string::StringSliceAdditionalSpecFns;

pub mod canvas;
pub mod icon;
pub mod session;
pub mod ui;
pub mod wrap;

verus! {

/// A user response to a dialog.
#[derive(Debug, Clone, Copy, PartialEq, Eq, Structural)]
pub enum Answer {
    /// The dialog window was closed by the OS.
    Closed,
    /// One of the dialog buttons was pressed; the payload is the 0-based
    /// index of the button in the original label sequence.
    Button(usize),
}

/// Failures when talking to a display server, or when decoding an icon.
#[derive(Debug, Clone, Copy, PartialEq, Eq, Structural)]
pub enum Error {
    /// The transport could not be opened or the handshake was rejected.
    Connection,
    /// A malformed or out-of-sequence server message; unrecoverable.
    Protocol,
    /// A specific request was refused by the server.
    Operation,
    /// An icon image could not be decoded.
    InvalidImage,
}

/// Error returned by the `from_str`-style parsers of this crate.
#[derive(Debug, Clone, Copy, PartialEq, Eq, Structural)]
pub struct InvalidValue {
    _p: bool,
}

impl InvalidValue {
    /// The one value of this type.
    pub fn new() -> (r: InvalidValue) {
        InvalidValue { _p: false }
    }

    /// A human-readable description of the error.
    pub fn message(&self) -> (s: String)
        ensures
            s@ == "invalid value"@,
    {
        "invalid value".to_owned()
    }
}

/// A mouse button; buttons other than these three are ignored.
#[derive(Debug, Clone, Copy, PartialEq, Eq, Structural)]
pub enum MouseButton {
    Left,
    Middle,
    Right,
}

/// A cursor position in window coordinates.
#[derive(Debug, Clone, Copy, PartialEq, Eq, Structural)]
pub struct CursorPos {
    pub x: i16,
    pub y: i16,
}

/// The typed event set a window driver hands to the dialog engine.
#[derive(Debug, Clone, Copy, PartialEq, Eq, Structural)]
pub enum WindowEvent {
    CloseRequested,
    RedrawRequested,
    CursorEnter(CursorPos),
    CursorMove(CursorPos),
    CursorLeave,
    ButtonPress(MouseButton),
    ButtonRelease(MouseButton),
}

/// The icon to display in the dialog.
#[derive(Debug, Clone, Copy, PartialEq, Eq, Structural)]
pub enum Icon {
    Error,
    Warning,
    Info,
    Question,
}

/// Color theme selection.
#[derive(Debug, Clone, Copy, PartialEq, Eq, Structural)]
pub enum Theme {
    Light,
    Dark,
}

/// Presets of button groups, in the order users expect.
#[derive(Debug, Clone, Copy, PartialEq, Eq, Structural)]
pub enum ButtonPreset {
    Close,
    Okay,
    OkCancel,
    RetryCancel,
    YesNo,
    YesNoCancel,
}

impl ButtonPreset {
    /// The button labels of this preset, in display order.
    pub fn strings(&self) -> (r: Vec<String>)
        ensures
            match self {
                ButtonPreset::Close => r@.len() == 1 && r@[0]@ == "Close"@,
                ButtonPreset::Okay => r@.len() == 1 && r@[0]@ == "OK"@,
                ButtonPreset::OkCancel => r@.len() == 2 && r@[0]@ == "OK"@ && r@[1]@ == "Cancel"@,
                ButtonPreset::RetryCancel => r@.len() == 2 && r@[0]@ == "Retry"@ && r@[1]@
                    == "Cancel"@,
                ButtonPreset::YesNo => r@.len() == 2 && r@[0]@ == "Yes"@ && r@[1]@ == "No"@,
                ButtonPreset::YesNoCancel => r@.len() == 3 && r@[0]@ == "Yes"@ && r@[1]@ == "No"@
                    && r@[2]@ == "Cancel"@,
            },
    {
        let mut r: Vec<String> = Vec::new();
        match self {
            ButtonPreset::Close => {
                r.push("Close".to_owned());
            },
            ButtonPreset::Okay => {
                r.push("OK".to_owned());
            },
            ButtonPreset::OkCancel => {
                r.push("OK".to_owned());
                r.push("Cancel".to_owned());
            },
            ButtonPreset::RetryCancel => {
                r.push("Retry".to_owned());
                r.push("Cancel".to_owned());
            },
            ButtonPreset::YesNo => {
                r.push("Yes".to_owned());
                r.push("No".to_owned());
            },
            ButtonPreset::YesNoCancel => {
                r.push("Yes".to_owned());
                r.push("No".to_owned());
                r.push("Cancel".to_owned());
            },
        }
        r
    }
}

/// The label byte strings of a preset, in display order.
pub open spec fn preset_labels(p: ButtonPreset) -> Seq<Seq<u8>> {
    match p {
        ButtonPreset::Close => seq![seq![67u8, 108u8, 111u8, 115u8, 101u8]],
        ButtonPreset::Okay => seq![seq![79u8, 75u8]],
        ButtonPreset::OkCancel => seq![
            seq![79u8, 75u8],
            seq![67u8, 97u8, 110u8, 99u8, 101u8, 108u8],
        ],
        ButtonPreset::RetryCancel => seq![
            seq![82u8, 101u8, 116u8, 114u8, 121u8],
            seq![67u8, 97u8, 110u8, 99u8, 101u8, 108u8],
        ],
        ButtonPreset::YesNo => seq![seq![89u8, 101u8, 115u8], seq![78u8, 111u8]],
        ButtonPreset::YesNoCancel => seq![
            seq![89u8, 101u8, 115u8],
            seq![78u8, 111u8],
            seq![67u8, 97u8, 110u8, 99u8, 101u8, 108u8],
        ],
    }
}

impl ButtonPreset {
    /// The label bytes of this preset, in display order: what the layout
    /// engine consumes.
    pub fn labels(&self) -> (r: Vec<Vec<u8>>)
        ensures
            crate::wrap::views_of(r@) == preset_labels(*self),
    {
        let mut out: Vec<Vec<u8>> = Vec::new();
        match self {
            ButtonPreset::Close => {
                out.push(label_close());
            },
            ButtonPreset::Okay => {
                out.push(label_ok());
            },
            ButtonPreset::OkCancel => {
                out.push(label_ok());
                out.push(label_cancel());
            },
            ButtonPreset::RetryCancel => {
                out.push(label_retry());
                out.push(label_cancel());
            },
            ButtonPreset::YesNo => {
                out.push(label_yes());
                out.push(label_no());
            },
            ButtonPreset::YesNoCancel => {
                out.push(label_yes());
                out.push(label_no());
                out.push(label_cancel());
            },
        }
        proof {
            assert(crate::wrap::views_of(out@) =~= preset_labels(*self));
        }
        out
    }
}

fn label_close() -> (v: Vec<u8>)
    ensures
        v@ == seq![67u8, 108u8, 111u8, 115u8, 101u8],
{
    let mut v: Vec<u8> = Vec::new();
    v.push(67);
    v.push(108);
    v.push(111);
    v.push(115);
    v.push(101);
    assert(v@ =~= seq![67u8, 108u8, 111u8, 115u8, 101u8]);
    v
}

fn label_ok() -> (v: Vec<u8>)
    ensures
        v@ == seq![79u8, 75u8],
{
    let mut v: Vec<u8> = Vec::new();
    v.push(79);
    v.push(75);
    assert(v@ =~= seq![79u8, 75u8]);
    v
}

fn label_cancel() -> (v: Vec<u8>)
    ensures
        v@ == seq![67u8, 97u8, 110u8, 99u8, 101u8, 108u8],
{
    let mut v: Vec<u8> = Vec::new();
    v.push(67);
    v.push(97);
    v.push(110);
    v.push(99);
    v.push(101);
    v.push(108);
    assert(v@ =~= seq![67u8, 97u8, 110u8, 99u8, 101u8, 108u8]);
    v
}

fn label_retry() -> (v: Vec<u8>)
    ensures
        v@ == seq![82u8, 101u8, 116u8, 114u8, 121u8],
{
    let mut v: Vec<u8> = Vec::new();
    v.push(82);
    v.push(101);
    v.push(116);
    v.push(114);
    v.push(121);
    assert(v@ =~= seq![82u8, 101u8, 116u8, 114u8, 121u8]);
    v
}

fn label_yes() -> (v: Vec<u8>)
    ensures
        v@ == seq![89u8, 101u8, 115u8],
{
    let mut v: Vec<u8> = Vec::new();
    v.push(89);
    v.push(101);
    v.push(115);
    assert(v@ =~= seq![89u8, 101u8, 115u8]);
    v
}

fn label_no() -> (v: Vec<u8>)
    ensures
        v@ == seq![78u8, 111u8],
{
    let mut v: Vec<u8> = Vec::new();
    v.push(78);
    v.push(111);
    assert(v@ =~= seq![78u8, 111u8]);
    v
}

/// A message dialog builder.
pub struct Builder {
    pub title: Option<String>,
    pub message: Option<String>,
    pub theme: Option<Theme>,
    pub icon: Icon,
    pub button_preset: ButtonPreset,
}

/// Returns a [`Builder`] for creating dialogs.
///
/// This is the main entry point into the library.
pub fn alerta() -> (b: Builder)
    ensures
        b.title is None,
        b.message is None,
        b.theme is None,
        b.icon == Icon::Info,
        b.button_preset == ButtonPreset::Close,
{
    Builder {
        title: None,
        message: None,
        theme: None,
        icon: Icon::Info,
        button_preset: ButtonPreset::Close,
    }
}

impl Builder {
    /// Sets the window title of the dialog.
    ///
    /// By default, the title is generated from the [`Icon`] the dialog uses.
    pub fn title(self, title: String) -> (b: Builder)
        ensures
            b == (Builder { title: Some(title), ..self }),
    {
        Builder { title: Some(title), ..self }
    }

    /// Sets the message body.
    ///
    /// The body can contain line breaks, and will be line-wrapped to fit into
    /// the dialog window.
    pub fn message(self, message: String) -> (b: Builder)
        ensures
            b == (Builder { message: Some(message), ..self }),
    {
        Builder { message: Some(message), ..self }
    }

    /// Sets the icon to display in the dialog.
    ///
    /// By default, [`Icon::Info`] is used.
    pub fn icon(self, icon: Icon) -> (b: Builder)
        ensures
            b == (Builder { icon, ..self }),
    {
        Builder { icon, ..self }
    }

    /// Sets the dialog's color theme.
    ///
    /// By default, the OS theme is used.
    pub fn theme(self, theme: Theme) -> (b: Builder)
        ensures
            b == (Builder { theme: Some(theme), ..self }),
    {
        Builder { theme: Some(theme), ..self }
    }

    /// Sets the button preset to use.
    ///
    /// By default, [`ButtonPreset::Close`] is used.
    pub fn button_preset(self, preset: ButtonPreset) -> (b: Builder)
        ensures
            b == (Builder { button_preset: preset, ..self }),
    {
        Builder { button_preset: preset, ..self }
    }

    /// The window title to use: the explicit one if set, else one generated
    /// from the icon. The trailing NUL matches what window-property requests
    /// expect on the wire.
    pub fn resolved_title(self) -> (t: String)
        ensures
            match self.title {
                Some(title) => t == title,
                None => t@ == match self.icon {
                    Icon::Error => "Error\u{0}"@,
                    Icon::Warning => "Warning\u{0}"@,
                    Icon::Info => "Info\u{0}"@,
                    Icon::Question => "Question\u{0}"@,
                },
            },
    {
        match self.title {
            Some(title) => title,
            None => match self.icon {
                Icon::Error => "Error\u{0}".to_owned(),
                Icon::Warning => "Warning\u{0}".to_owned(),
                Icon::Info => "Info\u{0}".to_owned(),
                Icon::Question => "Question\u{0}".to_owned(),
            },
        }
    }
}

/// The UTF-8 bytes of the name of each icon kind.
pub open spec fn icon_name(i: Icon) -> Seq<u8> {
    match i {
        Icon::Error => seq![101u8, 114u8, 114u8, 111u8, 114u8],
        Icon::Warning => seq![119u8, 97u8, 114u8, 110u8, 105u8, 110u8, 103u8],
        Icon::Info => seq![105u8, 110u8, 102u8, 111u8],
        Icon::Question => seq![113u8, 117u8, 101u8, 115u8, 116u8, 105u8, 111u8, 110u8],
    }
}

/// The UTF-8 bytes of the name of each theme.
pub open spec fn theme_name(t: Theme) -> Seq<u8> {
    match t {
        Theme::Light => seq![108u8, 105u8, 103u8, 104u8, 116u8],
        Theme::Dark => seq![100u8, 97u8, 114u8, 107u8],
    }
}

/// The UTF-8 bytes of the name of each button preset.
pub open spec fn preset_name(p: ButtonPreset) -> Seq<u8> {
    match p {
        ButtonPreset::Close => seq![99u8, 108u8, 111u8, 115u8, 101u8],
        ButtonPreset::Okay => seq![111u8, 107u8],
        ButtonPreset::OkCancel => seq![111u8, 107u8, 99u8, 97u8, 110u8, 99u8, 101u8, 108u8],
        ButtonPreset::RetryCancel => seq![
            114u8,
            101u8,
            116u8,
            114u8,
            121u8,
            99u8,
            97u8,
            110u8,
            99u8,
            101u8,
            108u8,
        ],
        ButtonPreset::YesNo => seq![121u8, 101u8, 115u8, 110u8, 111u8],
        ButtonPreset::YesNoCancel => seq![
            121u8,
            101u8,
            115u8,
            110u8,
            111u8,
            99u8,
            97u8,
            110u8,
            99u8,
            101u8,
            108u8,
        ],
    }
}

/// `s` spells the byte string `name`.
fn spells(s: &[u8], n0: &Vec<u8>) -> (r: bool)
    ensures
        r == (s@ == n0@),
{
    if s.len() != n0.len() {
        proof {
            assert(s@.len() != n0@.len());
        }
        return false;
    }
    let mut k: usize = 0;
    while k < s.len()
        invariant
            0 <= k <= s@.len(),
            s@.len() == n0@.len(),
            forall|j: int| 0 <= j < k ==> s@[j] == n0@[j],
        decreases s@.len() - k,
    {
        if s[k] != n0[k] {
            return false;
        }
        k += 1;
    }
    proof {
        assert(s@ =~= n0@);
    }
    true
}

impl Icon {
    /// Parses an icon kind from its lower-case name; exactly the four names
    /// of [`icon_name`] are accepted.
    pub fn from_str(s: &str) -> (r: Result<Icon, InvalidValue>)
        ensures
            match r {
                Ok(i) => s.spec_bytes() == icon_name(i),
                Err(_) => forall|i: Icon| s.spec_bytes() != icon_name(i),
            },
    {
        let b = s.as_bytes();
        let mut n_err: Vec<u8> = Vec::new();
        n_err.push(101);
        n_err.push(114);
        n_err.push(114);
        n_err.push(111);
        n_err.push(114);
        let mut n_warn: Vec<u8> = Vec::new();
        n_warn.push(119);
        n_warn.push(97);
        n_warn.push(114);
        n_warn.push(110);
        n_warn.push(105);
        n_warn.push(110);
        n_warn.push(103);
        let mut n_info: Vec<u8> = Vec::new();
        n_info.push(105);
        n_info.push(110);
        n_info.push(102);
        n_info.push(111);
        let mut n_quest: Vec<u8> = Vec::new();
        n_quest.push(113);
        n_quest.push(117);
        n_quest.push(101);
        n_quest.push(115);
        n_quest.push(116);
        n_quest.push(105);
        n_quest.push(111);
        n_quest.push(110);
        proof {
            assert(n_err@ =~= icon_name(Icon::Error));
            assert(n_warn@ =~= icon_name(Icon::Warning));
            assert(n_info@ =~= icon_name(Icon::Info));
            assert(n_quest@ =~= icon_name(Icon::Question));
        }
        if spells(b, &n_err) {
            return Ok(Icon::Error);
        }
        if spells(b, &n_warn) {
            return Ok(Icon::Warning);
        }
        if spells(b, &n_info) {
            return Ok(Icon::Info);
        }
        if spells(b, &n_quest) {
            return Ok(Icon::Question);
        }
        Err(InvalidValue { _p: false })
    }
}

impl Theme {
    /// Parses a theme from its lower-case name; exactly the two names of
    /// [`theme_name`] are accepted.
    pub fn from_str(s: &str) -> (r: Result<Theme, InvalidValue>)
        ensures
            match r {
                Ok(t) => s.spec_bytes() == theme_name(t),
                Err(_) => forall|t: Theme| s.spec_bytes() != theme_name(t),
            },
    {
        let b = s.as_bytes();
        let mut n_light: Vec<u8> = Vec::new();
        n_light.push(108);
        n_light.push(105);
        n_light.push(103);
        n_light.push(104);
        n_light.push(116);
        let mut n_dark: Vec<u8> = Vec::new();
        n_dark.push(100);
        n_dark.push(97);
        n_dark.push(114);
        n_dark.push(107);
        proof {
            assert(n_light@ =~= theme_name(Theme::Light));
            assert(n_dark@ =~= theme_name(Theme::Dark));
        }
        if spells(b, &n_light) {
            return Ok(Theme::Light);
        }
        if spells(b, &n_dark) {
            return Ok(Theme::Dark);
        }
        Err(InvalidValue { _p: false })
    }
}

impl ButtonPreset {
    /// Parses a preset from its lower-case name; exactly the six names of
    /// [`preset_name`] are accepted.
    pub fn from_str(s: &str) -> (r: Result<ButtonPreset, InvalidValue>)
        ensures
            match r {
                Ok(p) => s.spec_bytes() == preset_name(p),
                Err(_) => forall|p: ButtonPreset| s.spec_bytes() != preset_name(p),
            },
    {
        let b = s.as_bytes();
        let mut n_close: Vec<u8> = Vec::new();
        n_close.push(99);
        n_close.push(108);
        n_close.push(111);
        n_close.push(115);
        n_close.push(101);
        let mut n_ok: Vec<u8> = Vec::new();
        n_ok.push(111);
        n_ok.push(107);
        let mut n_okcancel: Vec<u8> = Vec::new();
        n_okcancel.push(111);
        n_okcancel.push(107);
        n_okcancel.push(99);
        n_okcancel.push(97);
        n_okcancel.push(110);
        n_okcancel.push(99);
        n_okcancel.push(101);
        n_okcancel.push(108);
        let mut n_retrycancel: Vec<u8> = Vec::new();
        n_retrycancel.push(114);
        n_retrycancel.push(101);
        n_retrycancel.push(116);
        n_retrycancel.push(114);
        n_retrycancel.push(121);
        n_retrycancel.push(99);
        n_retrycancel.push(97);
        n_retrycancel.push(110);
        n_retrycancel.push(99);
        n_retrycancel.push(101);
        n_retrycancel.push(108);
        let mut n_yesno: Vec<u8> = Vec::new();
        n_yesno.push(121);
        n_yesno.push(101);
        n_yesno.push(115);
        n_yesno.push(110);
        n_yesno.push(111);
        let mut n_yesnocancel: Vec<u8> = Vec::new();
        n_yesnocancel.push(121);
        n_yesnocancel.push(101);
        n_yesnocancel.push(115);
        n_yesnocancel.push(110);
        n_yesnocancel.push(111);
        n_yesnocancel.push(99);
        n_yesnocancel.push(97);
        n_yesnocancel.push(110);
        n_yesnocancel.push(99);
        n_yesnocancel.push(101);
        n_yesnocancel.push(108);
        proof {
            assert(n_close@ =~= preset_name(ButtonPreset::Close));
            assert(n_ok@ =~= preset_name(ButtonPreset::Okay));
            assert(n_okcancel@ =~= preset_name(ButtonPreset::OkCancel));
            assert(n_retrycancel@ =~= preset_name(ButtonPreset::RetryCancel));
            assert(n_yesno@ =~= preset_name(ButtonPreset::YesNo));
            assert(n_yesnocancel@ =~= preset_name(ButtonPreset::YesNoCancel));
        }
        if spells(b, &n_close) {
            return Ok(ButtonPreset::Close);
        }
        if spells(b, &n_ok) {
            return Ok(ButtonPreset::Okay);
        }
        if spells(b, &n_okcancel) {
            return Ok(ButtonPreset::OkCancel);
        }
        if spells(b, &n_retrycancel) {
            return Ok(ButtonPreset::RetryCancel);
        }
        if spells(b, &n_yesno) {
            return Ok(ButtonPreset::YesNo);
        }
        if spells(b, &n_yesnocancel) {
            return Ok(ButtonPreset::YesNoCancel);
        }
        Err(InvalidValue { _p: false })
    }
}

/// The message bytes the dialog shows: the builder's message in UTF-8,
/// truncated to what a dialog can hold, or empty when none was set.
pub open spec fn clamped_message(b: Builder) -> Seq<u8> {
    match b.message {
        Some(m) => {
            let bs = vstd::utf8::encode_utf8(m@);
            if bs.len() <= 65536 {
                bs
            } else {
                bs.take(65536)
            }
        },
        None => Seq::empty(),
    }
}

impl Builder {
    /// Lays the dialog out around an already-decoded icon bitmap and a
    /// resolved theme. Never fails: an over-long message is truncated to
    /// what a dialog can show.
    pub fn build_ui(&self, icon_bitmap: crate::ui::Bitmap, theme: Theme) -> (r: crate::ui::Ui)
        requires
            icon_bitmap.wf(),
        ensures
            r.wf(),
            r.theme == theme,
            !r.dirty,
            r.hovered is None,
            r.pressed is None,
            crate::ui::laid_out(
                r,
                icon_bitmap,
                clamped_message(*self),
                preset_labels(self.button_preset),
            ),
    {
        let msg: Vec<u8> = match &self.message {
            Some(m) => {
                let b = m.as_str().as_bytes();
                if b.len() > 65536 {
                    let v = crate::wrap::take_bytes(b, 65536);
                    v
                } else {
                    vstd::slice::slice_to_vec(b)
                }
            },
            None => Vec::new(),
        };
        assert(msg@ == clamped_message(*self));
        let labels = self.button_preset.labels();
        proof {
            assert(labels@.len() == crate::wrap::views_of(labels@).len());
            assert(crate::wrap::views_of(labels@).len() <= 3);
            assert forall|k: int| 0 <= k < labels@.len() implies labels@[k]@.len() <= 64 by {
                assert(crate::wrap::views_of(labels@)[k] == labels@[k]@);
            }
        }
        crate::ui::Ui::new(icon_bitmap, theme, msg.as_slice(), labels)
    }
}

} // verus!
