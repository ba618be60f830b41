use std::collections::VecDeque;
use std::sync::Arc;

use airgap_xfer::detect::{AfterRegion, Tracker, MAX_MISSES};
use airgap_xfer::error::Error;
use airgap_xfer::frame::{encode, Payload};
use airgap_xfer::qr;
use airgap_xfer::qr::{cell_size_for_version, encode_version};
use airgap_xfer::tui::camera::{
    downscale, known_gap, opening_verdict, preview_size, push_unique, smooth_gap, take_decoded, take_next,
    DecodeSlot, DECODE_QUEUE, PREVIEW_WIDTH,
};
use airgap_xfer::tui::optical::{
    display_closed, gate_verdict, paint, painted_verdict, payload_label, poll_blocked,
    poll_verdict, suggested_dwell, Answered, GateReply,
};
use airgap_xfer::tui::widget::{can_paint, half_block, Grid, QrGridWidget, QrWidget};
use airgap_xfer::tui::{
    after_aiming, aim_prompt, closing_line, max_qr_version, needs_draw, run_result, Chrome, Key,
    KeyEffect, Message, Tone, Ui, BORDER, FLOOR_CHROME_ROWS, LOG_LINES, LOG_ROWS,
};

#[test]
fn max_qr_version_only_reserves_rows_the_layout_cannot_give_up() {
    let (cols, rows) = cell_size_for_version(10);
    assert_eq!((cols, rows), (65, 33));
    assert_eq!(max_qr_version(cols, rows + FLOOR_CHROME_ROWS).unwrap(), 10);

    // 148x38 is short of the fully decorated frame but has ample room for a
    // v10 code once the chrome collapses.
    assert_eq!(max_qr_version(148, 38).unwrap(), 10);
}

#[test]
fn max_qr_version_reports_the_minimum_terminal_size() {
    let err = max_qr_version(20, 10).unwrap_err();
    match err {
        Error::TerminalTooSmall {
            need_cols,
            need_rows,
            have_cols,
            have_rows,
        } => {
            let (cols, rows) = cell_size_for_version(qr::smallest_version());
            assert_eq!((need_cols, need_rows), (cols, rows + FLOOR_CHROME_ROWS));
            assert_eq!((have_cols, have_rows), (20, 10));
        }
        other => panic!("expected TerminalTooSmall, got {other:?}"),
    }
}

#[test]
fn chrome_sheds_decoration_from_the_outside_in_and_never_squeezes_the_code() {
    let (cols, rows) = cell_size_for_version(10);

    // Roomy: everything on.
    let roomy = Chrome::fit(200, 60, cols, rows);
    assert_eq!(roomy.qr_border, BORDER);
    assert_eq!(roomy.footer, 1);
    assert_eq!(roomy.prompt, 1 + BORDER);
    assert_eq!(roomy.log, LOG_ROWS);

    // Three rows to spare: they go to the transcript rather than to a border,
    // because only the transcript says anything the rest of the frame does
    // not.
    let reported = Chrome::fit(148, 38, cols, rows);
    assert_eq!(reported.log, BORDER + 1);
    assert_eq!(reported.qr_border, 0);
    assert_eq!(reported.footer, 0);
    assert_eq!(reported.prompt, 1);

    // Exactly at the floor: nothing but the title and one prompt line.
    let tight = Chrome::fit(cols, rows + FLOOR_CHROME_ROWS, cols, rows);
    assert_eq!(
        tight,
        Chrome {
            qr_border: 0,
            log: 0,
            prompt: 1,
            footer: 0
        }
    );

    // Wide but short: the border costs rows it does not have.
    assert_eq!(
        Chrome::fit(400, rows + FLOOR_CHROME_ROWS, cols, rows).qr_border,
        0
    );
    // Tall but narrow: the border costs columns it does not have.
    assert_eq!(Chrome::fit(cols, 100, cols, rows).qr_border, 0);
}

#[test]
fn every_chrome_layout_leaves_the_code_its_full_height() {
    let (cols, rows) = cell_size_for_version(10);
    for height in (rows + FLOOR_CHROME_ROWS)..=(rows + 30) {
        let chrome = Chrome::fit(148, height, cols, rows);
        let used = 1 + chrome.log + chrome.prompt + chrome.footer + chrome.qr_border;
        assert!(
            used + rows <= height,
            "chrome {chrome:?} overflows a {height}-row terminal"
        );
    }
}

#[test]
fn labels_name_the_frame_kind() {
    assert_eq!(payload_label(&Payload::Okay), "OK");
    assert_eq!(
        payload_label(&Payload::Probe {
            id: 2,
            qr_version: 20,
            dwell_ms: 200,
            last: false
        }),
        "PROBE 2 (v20)"
    );
    assert_eq!(
        payload_label(&Payload::Data {
            seq: 7,
            chunk: vec![]
        }),
        "DATA #7"
    );
    assert_eq!(
        payload_label(&Payload::Ack {
            window_base: 64,
            bitmap: 0
        }),
        "ACK @64"
    );
    assert_eq!(payload_label(&Payload::Fail { reason: 4 }), "FAIL 4");
}

#[test]
fn half_block_covers_every_pair() {
    assert_eq!(half_block(true, true), '█');
    assert_eq!(half_block(true, false), '▀');
    assert_eq!(half_block(false, true), '▄');
    assert_eq!(half_block(false, false), ' ');
}

#[test]
fn qr_widget_draws_exact_module_grid_and_leaves_a_quiet_border() {
    let image = encode_version(b"AX-test", 10).unwrap();
    let (cols, rows) = cell_size_for_version(10);
    let pane = QrWidget {
        image: Some(&image),
        invert: false,
    }
    .render(cols + 4, rows + 2);

    assert_eq!(pane.cells.len(), (cols as usize + 4) * (rows as usize + 2));
    assert_eq!(pane.cells[0], ' ');
    assert!(pane.notice.is_none());
    // The code itself lands centred and contains dark modules.
    let dark = pane.cells.iter().filter(|c| **c != ' ').count();
    assert!(dark > 0, "expected drawn modules");
    // The finder pattern starts two cells in, one row down, behind the border.
    let width = cols as usize + 4;
    assert_eq!(pane.cells[3 * width + 6], '█');
    assert_eq!(pane.cells[3 * width + 5], ' ');
}

#[test]
fn qr_widget_refuses_to_clip_when_the_pane_is_too_small() {
    let image = encode_version(b"AX-test", 10).unwrap();
    let pane = QrWidget {
        image: Some(&image),
        invert: false,
    }
    .render(20, 10);
    let text: String = pane.cells[..20].iter().collect();
    assert!(
        !text.contains('█') && !text.contains('▀'),
        "must not draw a partial code, got {text:?}"
    );
    assert_eq!(
        pane.notice.unwrap(),
        "QR needs 65x33 cells, pane is 20x10.\nEnlarge the terminal."
    );
}

#[test]
fn qr_grid_still_draws_one_code_when_the_pane_cannot_hold_the_whole_grid() {
    let a = encode_version(b"AX-a", 10).unwrap();
    let b = encode_version(b"AX-b", 10).unwrap();
    let (cols, rows) = cell_size_for_version(10);
    let images = [Arc::new(a), Arc::new(b)];
    // Tall enough for one tile, not two stacked.
    let grid = QrGridWidget {
        images: &images,
        invert: false,
    }
    .render(cols, rows);
    match grid {
        Grid::Tiles(tiles) => {
            assert_eq!(tiles.len(), 1);
            let dark = tiles[0].pane.cells.iter().filter(|c| **c != ' ').count();
            assert!(dark > 0, "expected at least one code to be drawn");
        }
        other => panic!("{other:?}"),
    }
}

#[test]
fn a_grid_is_centred_and_row_major() {
    let images: Vec<Arc<qr::GrayImage>> = (0..3u8)
        .map(|i| Arc::new(encode_version(&[i], 10).unwrap()))
        .collect();
    let grid = QrGridWidget {
        images: &images,
        invert: false,
    }
    .render(140, 70);
    match grid {
        Grid::Tiles(tiles) => {
            let places: Vec<(u16, u16)> = tiles.iter().map(|t| (t.x, t.y)).collect();
            assert_eq!(places, [(5, 2), (70, 2), (5, 35)]);
        }
        other => panic!("{other:?}"),
    }
    let grid = QrGridWidget {
        images: &images,
        invert: false,
    }
    .render(64, 70);
    match grid {
        Grid::Notice(notice) => assert_eq!(
            notice,
            "QR needs 65x33 cells, pane is 64x70. Zoom out (Ctrl/- or Cmd/-) or enlarge the window."
        ),
        other => panic!("{other:?}"),
    }
    assert!(matches!(
        QrGridWidget {
            images: &[],
            invert: false
        }
        .render(140, 70),
        Grid::Nothing
    ));
}

#[test]
fn a_grid_says_so_where_a_later_code_is_larger_than_the_first() {
    let images = [
        Arc::new(encode_version(b"small", 10).unwrap()),
        Arc::new(encode_version(b"large", 15).unwrap()),
    ];
    let grid = QrGridWidget {
        images: &images,
        invert: false,
    }
    .render(130, 33);
    match grid {
        Grid::Tiles(tiles) => {
            assert_eq!(tiles.len(), 2);
            assert!(tiles[0].pane.notice.is_none());
            assert!(tiles[1].pane.cells.iter().all(|c| *c == ' '));
            assert_eq!(
                tiles[1].pane.notice.as_deref(),
                Some("QR needs 85x43 cells, pane is 65x33.\nEnlarge the terminal.")
            );
        }
        other => panic!("{other:?}"),
    }
}

#[test]
fn only_a_code_that_is_drawn_needs_all_its_rows() {
    let flat = |width: u32| Arc::new(qr::GrayImage::from_raw(width, 1, vec![0; width as usize]).unwrap());
    assert!(!can_paint(&flat(12), 3, 2));
    assert!(can_paint(&flat(12), 2, 2));
    assert!(can_paint(&flat(3), 3, 2));
    let pane = QrWidget {
        image: Some(&flat(12)),
        invert: false,
    }
    .render(2, 2);
    assert_eq!(
        pane.notice.as_deref(),
        Some("QR needs 3x2 cells, pane is 2x2.\nEnlarge the terminal.")
    );
    // No modules at all: the pane goes blank.
    assert!(matches!(
        QrGridWidget {
            images: &[flat(3), flat(12)],
            invert: false
        }
        .render(140, 70),
        Grid::Blank
    ));
    assert!(matches!(
        QrGridWidget {
            images: &[flat(3)],
            invert: false
        }
        .render(0, 70),
        Grid::Nothing
    ));
}

#[test]
fn consecutive_identical_payloads_collapse_but_a_change_is_queued() {
    let mut slot = DecodeSlot::default();
    let hello = Payload::Hello {
        protocol_ver: 1,
        role: 2,
    };
    let data0 = Payload::Data {
        seq: 0,
        chunk: vec![1],
    };
    let data1 = Payload::Data {
        seq: 1,
        chunk: vec![2],
    };

    push_unique(&mut slot, hello.clone());
    push_unique(&mut slot, hello.clone());
    push_unique(&mut slot, data0.clone());
    push_unique(&mut slot, data0.clone());
    push_unique(&mut slot, data1.clone());

    assert_eq!(slot.pending, VecDeque::from([hello, data0, data1]));
}

#[test]
fn a_full_queue_drops_the_oldest_unique_payload() {
    let mut slot = DecodeSlot::default();
    for seq in 0..=DECODE_QUEUE as u32 {
        push_unique(
            &mut slot,
            Payload::Data {
                seq,
                chunk: vec![seq as u8],
            },
        );
    }
    assert_eq!(slot.pending.len(), DECODE_QUEUE);
    assert_eq!(
        slot.pending.front(),
        Some(&Payload::Data {
            seq: 1,
            chunk: vec![1]
        })
    );
}

#[test]
fn decoded_frames_are_queued_and_anything_else_is_not() {
    let mut slot = DecodeSlot::default();
    assert!(take_next(&mut slot).is_none());
    assert!(!take_decoded(&mut slot, b"garbage"));
    assert!(take_decoded(&mut slot, &encode(&Payload::Okay).unwrap()));
    assert!(take_decoded(&mut slot, &encode(&Payload::Okay).unwrap()));
    assert_eq!(take_next(&mut slot), Some(Payload::Okay));
    assert_eq!(take_next(&mut slot), None);
    // Taking it does not make the code on screen new again.
    push_unique(&mut slot, Payload::Okay);
    assert_eq!(take_next(&mut slot), None);
}

fn black(width: u32, height: u32) -> qr::GrayImage {
    qr::GrayImage::from_raw(width, height, vec![0; (width * height) as usize]).unwrap()
}

#[test]
fn downscale_preserves_aspect_ratio_and_caps_width() {
    let wide = black(1920, 1080);
    let small = downscale(&wide);
    assert_eq!(small.width(), PREVIEW_WIDTH);
    assert_eq!(small.height(), 1080 * PREVIEW_WIDTH / 1920);

    let tiny = black(64, 48);
    let same = downscale(&tiny);
    assert_eq!((same.width(), same.height()), (64, 48));
}

#[test]
fn a_preview_takes_the_nearest_pixels() {
    assert_eq!(preview_size(100_000, 1), (320, 1));
    // Three columns and three rows to a pixel: the middle one is taken.
    let pixels = (0..960u32 * 6)
        .map(|i| ((i % 960) / 3 + 100 * (i / 960 / 3)) as u8)
        .collect();
    let frame = qr::GrayImage::from_raw(960, 6, pixels).unwrap();
    let small = downscale(&frame);
    assert_eq!((small.width(), small.height()), (320, 2));
    assert_eq!(small.get_pixel(0, 0), 0);
    assert_eq!(small.get_pixel(77, 0), 77);
    assert_eq!(small.get_pixel(77, 1), 177);
    let narrow = qr::GrayImage::from_raw(3, 1, vec![7, 8, 9]).unwrap();
    assert_eq!(downscale(&narrow).as_raw(), &vec![7, 8, 9]);
}

#[test]
fn the_pace_is_smoothed() {
    assert_eq!(smooth_gap(0, 40), 40);
    assert_eq!(smooth_gap(40, 80), 50);
    assert_eq!(smooth_gap(0, 0), 1);
    assert_eq!(known_gap(0), None);
    assert_eq!(known_gap(7), Some(7));
    assert_eq!(suggested_dwell(None), 0);
    assert_eq!(suggested_dwell(Some(10)), 120);
    assert_eq!(suggested_dwell(Some(100)), 300);
    assert_eq!(suggested_dwell(Some(u64::MAX)), 1200);
}

#[test]
fn opening_a_camera() {
    assert!(opening_verdict(0, None, 0, false).is_none());
    assert!(matches!(opening_verdict(0, None, 3, false), Some(Ok(()))));
    match opening_verdict(2, None, 0, true) {
        Some(Err(Error::Camera(m))) => {
            assert_eq!(m, "camera 2 produced no frames within 12s")
        }
        other => panic!("{other:?}"),
    }
    match opening_verdict(2, Some("gone".into()), 5, true) {
        Some(Err(Error::Camera(m))) => assert_eq!(m, "gone"),
        other => panic!("{other:?}"),
    }
}

#[test]
fn the_lock_is_dropped_after_a_short_run_of_misses() {
    let mut tracker = Tracker::new();
    assert!(!tracker.locked());
    tracker.read_frame(true);
    assert!(tracker.locked());
    for _ in 0..MAX_MISSES {
        assert_ne!(tracker.read_region(false), AfterRegion::Decoded);
    }
    assert!(!tracker.locked(), "a stale lock must not survive");

    // And it re-acquires once the code is back.
    tracker.read_frame(true);
    assert!(tracker.locked());
    assert_eq!(tracker.read_region(false), AfterRegion::Missed);
    assert_eq!(tracker.read_region(true), AfterRegion::Decoded);
    assert_eq!(tracker.read_region(false), AfterRegion::Missed);
    assert_eq!(tracker.read_region(false), AfterRegion::ScanFrame);
    tracker.read_many(false);
    assert!(!tracker.locked());
}

#[test]
fn a_payload_is_painted_at_its_own_version() {
    let probe = Payload::Probe {
        id: 2,
        qr_version: 20,
        dwell_ms: 200,
        last: false,
    };
    assert_eq!(paint(&probe, 10).unwrap().width(), (97 + 8) * 4);
    assert_eq!(paint(&Payload::Okay, 10).unwrap().width(), 260);
    assert!(paint(&Payload::Okay, 11).is_err());
}

#[test]
fn waiting_for_the_display() {
    assert!(matches!(
        painted_verdict(true, Answered::Yes(())),
        Some(Err(Error::Interrupted))
    ));
    assert!(matches!(painted_verdict(false, Answered::Yes(())), Some(Ok(()))));
    assert!(painted_verdict(false, Answered::NotYet).is_none());
    match painted_verdict(false, Answered::Never) {
        Some(Err(Error::Message(m))) => assert_eq!(m, "display closed"),
        other => panic!("{other:?}"),
    }
    assert!(matches!(display_closed(true), Error::Interrupted));
    assert!(matches!(
        gate_verdict(false, Answered::Yes(GateReply::Proceed)),
        Some(Ok(true))
    ));
    assert!(matches!(
        gate_verdict(false, Answered::Yes(GateReply::Abort)),
        Some(Ok(false))
    ));
    assert!(matches!(
        gate_verdict(true, Answered::NotYet),
        Some(Err(Error::Interrupted))
    ));
    assert!(matches!(poll_blocked(true, None), Some(Error::Interrupted)));
    assert!(matches!(
        poll_blocked(false, Some("x".into())),
        Some(Error::Camera(_))
    ));
    assert!(poll_blocked(false, None).is_none());
    assert_eq!(poll_verdict(None, false), None);
    assert_eq!(poll_verdict(None, true), Some(None));
    assert_eq!(
        poll_verdict(Some(Payload::Okay), true),
        Some(Some(Payload::Okay))
    );
}

fn ui() -> Ui {
    Ui::new("title", 3, 10, false)
}

#[test]
fn keys_answer_quit_and_leave() {
    let mut ui = ui();
    assert_eq!(ui.press(Key::Enter, false, true), KeyEffect::Nothing);
    ui.tell(Message::Gate {
        prompt: "aim".into(),
        require_lock: true,
    });
    assert_eq!(ui.press(Key::Enter, false, false), KeyEffect::Nothing);
    assert!(ui.gate.is_some());
    assert_eq!(
        ui.press(Key::Enter, false, true),
        KeyEffect::Answer(GateReply::Proceed)
    );
    assert!(ui.gate.is_none());
    ui.tell(Message::Gate {
        prompt: "send".into(),
        require_lock: false,
    });
    assert_eq!(ui.press(Key::Char('x'), false, false), KeyEffect::Nothing);
    assert_eq!(ui.press(Key::Char('c'), false, false), KeyEffect::Nothing);
    assert_eq!(
        ui.press(Key::Esc, false, false),
        KeyEffect::Answer(GateReply::Abort)
    );
    assert_eq!(ui.press(Key::Char('c'), true, false), KeyEffect::Interrupt);
    assert_eq!(ui.press(Key::Char('q'), false, false), KeyEffect::Interrupt);
    assert!(ui.ends_without_protocol());
    ui.tell(Message::Finished {
        summary: "done".into(),
    });
    assert!(!ui.ends_without_protocol());
    assert_eq!(ui.press(Key::Other, false, false), KeyEffect::Leave);
    assert_eq!(ui.log.last().unwrap(), "done");
}

#[test]
fn the_transcript_is_bounded() {
    let mut ui = ui();
    for i in 0..LOG_LINES + 5 {
        ui.push_log(format!("line {i}"));
    }
    assert_eq!(ui.log.len(), LOG_LINES);
    assert_eq!(ui.log[0], "line 5");
    assert_eq!(ui.log[LOG_LINES - 1], format!("line {}", LOG_LINES + 4));
}

#[test]
fn the_screen_says_what_there_is_to_say() {
    let mut ui = ui();
    let scene = ui.scene(148, 60, false, 7, 2);
    assert_eq!(scene.camera, "  cam 3  ·  ");
    assert_eq!(scene.tracking, "○ searching");
    assert_eq!(scene.counters, "  ·  7 frames  ·  2 decodes");
    assert_eq!(scene.hints, "q: quit");
    assert_eq!(scene.prompt, "working…");
    assert_eq!(scene.tone, Tone::Working);
    assert_eq!(scene.pane_cols, 67);
    assert!(scene.preview);
    assert!(!ui.scene(90, 60, false, 7, 2).preview);
    assert!(ui.tell(Message::Show {
        invert: true,
        label: "HELLO".into()
    }));
    assert!(!ui.tell(Message::Status("half".into())));
    ui.tell(Message::Gate {
        prompt: "Aim".into(),
        require_lock: true,
    });
    let scene = ui.scene(148, 35, false, 7, 2);
    assert_eq!(scene.counters, "  ·  7 frames  ·  2 decodes  ·  showing HELLO");
    assert_eq!(
        scene.prompt,
        "▶ Aim at the other terminal until tracking locks, then press Enter   \
         [keep aiming until ● tracking   Esc: abort   q: quit]"
    );
    assert_eq!(scene.tone, Tone::Waiting);
    let scene = ui.scene(148, 60, true, 7, 2);
    assert_eq!(scene.prompt, "▶ Tracking locked. Aim");
    assert_eq!(scene.hints, "Enter: continue   Esc: abort   q: quit");
    assert_eq!(scene.tone, Tone::Locked);
    ui.gate = None;
    assert_eq!(ui.scene(148, 60, true, 7, 2).prompt, "half");
    ui.tell(Message::Finished {
        summary: "over".into(),
    });
    let scene = ui.scene(148, 60, true, 7, 2);
    assert_eq!((scene.prompt.as_str(), scene.hints.as_str()), ("over", "any key: exit"));
    assert_eq!(scene.tone, Tone::Done);
    for i in 0..10 {
        ui.push_log(format!("{i}"));
    }
    assert_eq!(ui.scene(148, 60, true, 7, 2).log_start, 7);
}

#[test]
fn the_edges_of_a_run() {
    assert!(needs_draw(true, 0));
    assert!(needs_draw(false, 80));
    assert!(!needs_draw(false, 79));
    assert_eq!(
        aim_prompt(1),
        "Aim camera 1 at the other terminal until tracking locks, then press Enter"
    );
    assert!(after_aiming(Ok(true)).is_ok());
    assert!(matches!(after_aiming(Ok(false)), Err(Error::Aborted)));
    assert!(matches!(
        after_aiming(Err(Error::Interrupted)),
        Err(Error::Interrupted)
    ));
    assert_eq!(closing_line(&Ok("x".into())), "done — x");
    assert_eq!(closing_line(&Err(Error::BadFrame)), "failed — bad frame");
    assert_eq!(run_result(Ok("x".into()), Ok(())).unwrap(), "x");
    assert!(matches!(
        run_result(Ok("x".into()), Err(Error::BadFrame)),
        Err(Error::BadFrame)
    ));
    assert!(matches!(
        run_result(Err(Error::Aborted), Err(Error::BadFrame)),
        Err(Error::Aborted)
    ));
}
