use alerta::canvas::Rect;
use alerta::session::Session;
use alerta::ui::{Bitmap, Ui};
use alerta::{alerta, Answer, Builder, ButtonPreset, CursorPos, Icon, MouseButton, Theme, WindowEvent};

fn test_icon() -> Bitmap {
    // A 2x2 fully opaque gray icon (premultiplied trivially).
    Bitmap { width: 2, height: 2, data: vec![0xFF808080u32; 4] }
}

fn yes_no_cancel_ui() -> Ui {
    Ui::new(
        test_icon(),
        Theme::Light,
        b"Are you sure?",
        vec![b"Yes".to_vec(), b"No".to_vec(), b"Cancel".to_vec()],
    )
}

fn center(r: Rect) -> CursorPos {
    CursorPos { x: (r.x + r.w / 2) as i16, y: (r.y + r.h / 2) as i16 }
}

#[test]
fn builder_defaults() {
    let b = alerta();
    assert!(b.title.is_none());
    assert!(b.message.is_none());
    assert!(b.theme.is_none());
    assert_eq!(b.icon, Icon::Info);
    assert_eq!(b.button_preset, ButtonPreset::Close);
}

#[test]
fn builder_setters() {
    let b = alerta()
        .title("T".to_string())
        .message("M".to_string())
        .icon(Icon::Warning)
        .theme(Theme::Dark)
        .button_preset(ButtonPreset::YesNo);
    assert_eq!(b.title.as_deref(), Some("T"));
    assert_eq!(b.message.as_deref(), Some("M"));
    assert_eq!(b.icon, Icon::Warning);
    assert_eq!(b.theme, Some(Theme::Dark));
    assert_eq!(b.button_preset, ButtonPreset::YesNo);
}

#[test]
fn resolved_title_default_comes_from_icon() {
    let b = alerta().icon(Icon::Warning);
    assert_eq!(b.resolved_title(), "Warning\0");
    let b = alerta().title("Custom".to_string());
    assert_eq!(b.resolved_title(), "Custom");
}

#[test]
fn preset_strings() {
    assert_eq!(ButtonPreset::Close.strings(), vec!["Close".to_string()]);
    assert_eq!(ButtonPreset::YesNoCancel.strings(), vec![
        "Yes".to_string(),
        "No".to_string(),
        "Cancel".to_string()
    ]);
    assert_eq!(ButtonPreset::RetryCancel.labels(), vec![b"Retry".to_vec(), b"Cancel".to_vec()]);
}

#[test]
fn parses_names() {
    assert_eq!(Icon::from_str("error"), Ok(Icon::Error));
    assert_eq!(Icon::from_str("warning"), Ok(Icon::Warning));
    assert_eq!(Icon::from_str("info"), Ok(Icon::Info));
    assert_eq!(Icon::from_str("question"), Ok(Icon::Question));
    assert!(Icon::from_str("fatal").is_err());
    assert!(Icon::from_str("Info").is_err());
    assert_eq!(Theme::from_str("light"), Ok(Theme::Light));
    assert_eq!(Theme::from_str("dark"), Ok(Theme::Dark));
    assert!(Theme::from_str("auto").is_err());
    assert_eq!(ButtonPreset::from_str("ok"), Ok(ButtonPreset::Okay));
    assert_eq!(ButtonPreset::from_str("yesnocancel"), Ok(ButtonPreset::YesNoCancel));
    assert_eq!(ButtonPreset::from_str("retrycancel"), Ok(ButtonPreset::RetryCancel));
    assert!(ButtonPreset::from_str("maybe").is_err());
}

#[test]
fn wrap_keeps_lines_within_width() {
    let lines = alerta::wrap::wrap_text(b"the quick brown fox jumps over the lazy dog", 10);
    assert!(!lines.is_empty());
    for l in &lines {
        assert!(l.len() <= 10, "line too long: {:?}", l);
    }
}

#[test]
fn wrap_rejoins_to_original_words() {
    let text = b"alpha beta  gamma\ndelta   epsilon";
    let lines = alerta::wrap::wrap_text(text, 12);
    let mut words: Vec<Vec<u8>> = Vec::new();
    for l in &lines {
        for w in l.split(|&b| b == b' ' || b == b'\n') {
            if !w.is_empty() {
                words.push(w.to_vec());
            }
        }
    }
    let expected: Vec<Vec<u8>> = vec![
        b"alpha".to_vec(),
        b"beta".to_vec(),
        b"gamma".to_vec(),
        b"delta".to_vec(),
        b"epsilon".to_vec(),
    ];
    assert_eq!(words, expected);
}

#[test]
fn wrap_exact_packing() {
    let lines = alerta::wrap::wrap_text(b"hello world foo", 11);
    assert_eq!(lines, vec![b"hello world".to_vec(), b"foo".to_vec()]);
}

#[test]
fn wrap_preserves_explicit_breaks() {
    let lines = alerta::wrap::wrap_text(b"a\n\nb", 60);
    assert_eq!(lines, vec![b"a".to_vec(), b"".to_vec(), b"b".to_vec()]);
}

#[test]
fn wrap_never_splits_overlong_word() {
    let lines = alerta::wrap::wrap_text(b"tiny incomprehensibilities end", 8);
    assert_eq!(
        lines,
        vec![b"tiny".to_vec(), b"incomprehensibilities".to_vec(), b"end".to_vec()]
    );
}

#[test]
fn layout_is_deterministic() {
    let a = yes_no_cancel_ui();
    let b = yes_no_cancel_ui();
    assert_eq!(a.canvas.width(), b.canvas.width());
    assert_eq!(a.canvas.height(), b.canvas.height());
    assert_eq!(a.buttons.len(), b.buttons.len());
    for (x, y) in a.buttons.iter().zip(b.buttons.iter()) {
        assert_eq!(x.rect, y.rect);
        assert_eq!(x.label, y.label);
    }
    assert_eq!(a.canvas.data(), b.canvas.data());
}

#[test]
fn buttons_follow_label_order_without_overlap() {
    let ui = yes_no_cancel_ui();
    assert_eq!(ui.buttons.len(), 3);
    assert_eq!(ui.buttons[0].label, b"Yes".to_vec());
    assert_eq!(ui.buttons[1].label, b"No".to_vec());
    assert_eq!(ui.buttons[2].label, b"Cancel".to_vec());
    for i in 0..2 {
        let a = ui.buttons[i].rect;
        let b = ui.buttons[i + 1].rect;
        assert!(a.x + a.w < b.x);
    }
}

#[test]
fn hit_test_is_exclusive_on_a_grid() {
    let ui = yes_no_cancel_ui();
    for y in (0..ui.canvas.height() as i16).step_by(3) {
        for x in (0..ui.canvas.width() as i16).step_by(3) {
            let mut contained = 0;
            for b in &ui.buttons {
                let r = b.rect;
                let inside = x as u32 >= r.x && (x as u32) < r.x + r.w && y as u32 >= r.y
                    && (y as u32) < r.y + r.h;
                if inside {
                    contained += 1;
                }
            }
            assert!(contained <= 1);
            let hit = ui.hit_test(x, y);
            assert_eq!(hit.is_some(), contained == 1);
        }
    }
}

#[test]
fn press_release_inside_button_answers_its_index() {
    let mut ui = yes_no_cancel_ui();
    let p = center(ui.buttons[1].rect);
    assert_eq!(ui.process_event(WindowEvent::CursorMove(p)), None);
    assert_eq!(ui.process_event(WindowEvent::ButtonPress(MouseButton::Left)), None);
    assert_eq!(
        ui.process_event(WindowEvent::ButtonRelease(MouseButton::Left)),
        Some(Answer::Button(1))
    );
}

#[test]
fn end_to_end_yes_no_cancel_button1() {
    // Labels ["Yes","No","Cancel"]; press and release at button 1's center.
    let ui = yes_no_cancel_ui();
    let p = center(ui.buttons[1].rect);
    let mut s = Session::new(ui);
    // The cursor reaches the button, then the button is pressed and released.
    assert_eq!(s.step(WindowEvent::CursorMove(p)).answer, None);
    assert_eq!(s.step(WindowEvent::ButtonPress(MouseButton::Left)).answer, None);
    let out = s.step(WindowEvent::ButtonRelease(MouseButton::Left));
    assert_eq!(out.answer, Some(Answer::Button(1)));
}

#[test]
fn release_outside_cancels() {
    let mut ui = yes_no_cancel_ui();
    let inside = center(ui.buttons[0].rect);
    assert_eq!(ui.process_event(WindowEvent::CursorMove(inside)), None);
    assert_eq!(ui.process_event(WindowEvent::ButtonPress(MouseButton::Left)), None);
    // Move outside every button (the top-left corner is margin space).
    assert_eq!(ui.process_event(WindowEvent::CursorMove(CursorPos { x: 1, y: 1 })), None);
    assert_eq!(ui.process_event(WindowEvent::ButtonRelease(MouseButton::Left)), None);
    assert_eq!(ui.pressed, None);
    // The dialog is still open and a later click still works.
    let p = center(ui.buttons[2].rect);
    assert_eq!(ui.process_event(WindowEvent::CursorMove(p)), None);
    assert_eq!(ui.process_event(WindowEvent::ButtonPress(MouseButton::Left)), None);
    assert_eq!(
        ui.process_event(WindowEvent::ButtonRelease(MouseButton::Left)),
        Some(Answer::Button(2))
    );
}

#[test]
fn close_always_wins() {
    let mut ui = yes_no_cancel_ui();
    let p = center(ui.buttons[0].rect);
    assert_eq!(ui.process_event(WindowEvent::CursorMove(p)), None);
    assert_eq!(ui.process_event(WindowEvent::ButtonPress(MouseButton::Left)), None);
    // Mid-press, a close request still ends the dialog with Closed.
    assert_eq!(ui.process_event(WindowEvent::CloseRequested), Some(Answer::Closed));
}

#[test]
fn drag_requested_once_per_episode() {
    let ui = yes_no_cancel_ui();
    let mut s = Session::new(ui);
    let outside = CursorPos { x: 1, y: 1 };
    assert_eq!(s.step(WindowEvent::CursorMove(outside)).start_drag, false);
    s.step(WindowEvent::ButtonPress(MouseButton::Left));
    let mut drags = 0;
    for _ in 0..10 {
        if s.step(WindowEvent::CursorMove(outside)).start_drag {
            drags += 1;
        }
    }
    assert_eq!(drags, 1);
    // A release ends the episode; the next press starts a fresh one.
    s.step(WindowEvent::ButtonRelease(MouseButton::Left));
    s.step(WindowEvent::ButtonPress(MouseButton::Left));
    assert_eq!(s.step(WindowEvent::CursorMove(outside)).start_drag, true);
    assert_eq!(s.step(WindowEvent::CursorMove(outside)).start_drag, false);
}

#[test]
fn no_drag_while_over_a_button() {
    let ui = yes_no_cancel_ui();
    let p = center(ui.buttons[0].rect);
    let mut s = Session::new(ui);
    s.step(WindowEvent::ButtonPress(MouseButton::Left));
    assert_eq!(s.step(WindowEvent::CursorMove(p)).start_drag, false);
}

#[test]
fn redraw_is_idempotent_and_coalesces() {
    // One Ui drains a burst of events and redraws once; the other redraws
    // after every event. The displayed canvases are byte-identical.
    let mut a = yes_no_cancel_ui();
    let mut b = yes_no_cancel_ui();
    let p0 = center(a.buttons[0].rect);
    let p1 = center(a.buttons[1].rect);
    let events = [
        WindowEvent::CursorMove(p0),
        WindowEvent::RedrawRequested,
        WindowEvent::CursorMove(p1),
        WindowEvent::ButtonPress(MouseButton::Left),
    ];
    for e in events {
        a.process_event(e);
    }
    a.redraw();
    for e in events {
        b.process_event(e);
        b.redraw();
    }
    assert_eq!(a.canvas.data(), b.canvas.data());
    // Redrawing again with unchanged state changes nothing.
    let snapshot = a.canvas.data().clone();
    a.redraw();
    assert_eq!(&snapshot, a.canvas.data());
}

#[test]
fn every_rendered_pixel_is_premultiplied() {
    let mut ui = Ui::new(
        test_icon(),
        Theme::Dark,
        b"premultiplication holds everywhere",
        vec![b"OK".to_vec()],
    );
    let p = center(ui.buttons[0].rect);
    ui.process_event(WindowEvent::CursorMove(p));
    ui.redraw();
    for &px in ui.canvas.data() {
        let a = px >> 24;
        assert!((px >> 16) & 0xff <= a);
        assert!((px >> 8) & 0xff <= a);
        assert!(px & 0xff <= a);
    }
}

#[test]
fn hover_marks_dirty_and_redraw_clears_it() {
    let mut ui = yes_no_cancel_ui();
    assert!(!ui.dirty);
    let p = center(ui.buttons[0].rect);
    ui.process_event(WindowEvent::CursorMove(p));
    assert!(ui.dirty);
    ui.redraw();
    assert!(!ui.dirty);
    // Moving within the same button changes nothing, so no repaint is due.
    let p2 = CursorPos { x: p.x + 1, y: p.y };
    ui.process_event(WindowEvent::CursorMove(p2));
    assert!(!ui.dirty);
}

#[test]
fn build_ui_from_builder() {
    let ui = alerta()
        .message("Proceed with the operation?".to_string())
        .button_preset(ButtonPreset::OkCancel)
        .build_ui(test_icon(), Theme::Light);
    assert_eq!(ui.buttons.len(), 2);
    assert_eq!(ui.buttons[0].label, b"OK".to_vec());
    assert_eq!(ui.buttons[1].label, b"Cancel".to_vec());
    assert!(ui.canvas.width() > 0 && ui.canvas.height() > 0);
}

#[test]
fn decode_icon_roundtrip_premultiplies() {
    // A hand-written 1x1 RGBA QOI stream: header, one QOI_OP_RGBA pixel,
    // end marker.
    let mut bytes: Vec<u8> = Vec::new();
    bytes.extend_from_slice(b"qoif");
    bytes.extend_from_slice(&1u32.to_be_bytes());
    bytes.extend_from_slice(&1u32.to_be_bytes());
    bytes.push(4); // channels
    bytes.push(0); // colorspace
    bytes.extend_from_slice(&[0xFF, 200, 100, 50, 128]);
    bytes.extend_from_slice(&[0, 0, 0, 0, 0, 0, 0, 1]);
    let bm = alerta::icon::decode_icon(&bytes).unwrap();
    assert_eq!((bm.width, bm.height), (1, 1));
    // 200*128/255 = 100, 100*128/255 = 50, 50*128/255 = 25.
    assert_eq!(bm.data, vec![0x80643219u32]);
}

#[test]
fn decode_icon_rejects_garbage() {
    match alerta::icon::decode_icon(b"not a qoi stream") {
        Err(e) => assert_eq!(e, alerta::Error::InvalidImage),
        Ok(_) => panic!("garbage was accepted as an icon"),
    }
}

#[test]
fn long_message_truncates_instead_of_failing() {
    let long = "word ".repeat(20000);
    let b: Builder = alerta().message(long).button_preset(ButtonPreset::Okay);
    let ui = b.build_ui(test_icon(), Theme::Light);
    assert!(ui.canvas.width() > 0);
}
