use bytes::BytesMut;
use rbattle::jsonproto::{FrameError, JsonCodec};
use rbattle::mouse::{Affordance, Display, Mouse, OutflowState};
use rbattle::state::{Action, Player};

#[test]
fn a_click_and_release_on_an_outflow_toggles_it() {
    let mut mouse = Mouse::new(Player(2));
    assert_eq!(mouse.display(), Display::Nothing);
    mouse.move_to(Some((4, 5)));
    assert_eq!(mouse.position, Affordance::Outflow((4, 5)));
    assert_eq!(mouse.display(), Display::Outflow { nodes: (4, 5), state: OutflowState::Hover });
    mouse.click();
    assert_eq!(mouse.display(), Display::Outflow { nodes: (4, 5), state: OutflowState::Active });
    assert_eq!(
        mouse.release(),
        Some(Action::ToggleOutflow { player: Player(2), from: 4, to: 5 })
    );
    assert_eq!(mouse.click, None);
    assert_eq!(mouse.display(), Display::Outflow { nodes: (4, 5), state: OutflowState::Hover });
}

#[test]
fn dragging_off_does_nothing() {
    let mut mouse = Mouse::new(Player(0));
    mouse.move_to(Some((4, 5)));
    mouse.click();
    mouse.move_to(Some((5, 4)));
    // The click stays where it was made, shown as hovered over.
    assert_eq!(mouse.display(), Display::Outflow { nodes: (4, 5), state: OutflowState::Hover });
    assert_eq!(mouse.release(), None);
    assert_eq!(mouse.click, None);

    mouse.move_to(Some((4, 5)));
    mouse.click();
    mouse.move_to(None);
    assert_eq!(mouse.display(), Display::Nothing);
    assert_eq!(mouse.release(), None);
}

#[test]
fn a_release_without_a_click_or_on_nothing_does_nothing() {
    let mut mouse = Mouse::new(Player(0));
    mouse.move_to(Some((1, 2)));
    assert_eq!(mouse.release(), None);
    mouse.move_to(None);
    mouse.click();
    assert_eq!(mouse.click, Some(Affordance::Nothing));
    assert_eq!(mouse.display(), Display::Nothing);
    assert_eq!(mouse.release(), None);
    // A click on nothing, released over an outflow.
    mouse.click();
    mouse.move_to(Some((1, 2)));
    assert_eq!(mouse.display(), Display::Nothing);
    assert_eq!(mouse.release(), None);
}

#[test]
fn frames_are_lines() {
    let mut wire = BytesMut::new();
    assert_eq!(JsonCodec::encode_frame(b"\"Join\"", &mut wire), Ok(()));
    assert_eq!(&wire[..], b"\"Join\"\n");
    assert_eq!(JsonCodec::encode_frame(b"{\"Turn\":1}", &mut wire), Ok(()));
    assert_eq!(JsonCodec::encode_frame(b"", &mut wire), Ok(()));
    assert_eq!(&wire[..], b"\"Join\"\n{\"Turn\":1}\n\n");

    let first = JsonCodec::decode_frame(&mut wire).unwrap();
    assert_eq!(&first[..], b"\"Join\"\n");
    assert_eq!(&wire[..], b"{\"Turn\":1}\n\n");
    let second = JsonCodec::decode_frame(&mut wire).unwrap();
    assert_eq!(&second[..], b"{\"Turn\":1}\n");
    let third = JsonCodec::decode_frame(&mut wire).unwrap();
    assert_eq!(&third[..], b"\n");
    assert!(JsonCodec::decode_frame(&mut wire).is_none());
    assert!(wire.is_empty());
}

#[test]
fn an_unfinished_line_waits_in_the_buffer() {
    let mut wire = BytesMut::from(&b"{\"Act"[..]);
    assert!(JsonCodec::decode_frame(&mut wire).is_none());
    assert_eq!(&wire[..], b"{\"Act");
    wire.extend_from_slice(b"ions\":[]}\n\"Jo");
    let line = JsonCodec::decode_frame(&mut wire).unwrap();
    assert_eq!(&line[..], b"{\"Actions\":[]}\n");
    assert_eq!(&wire[..], b"\"Jo");
    assert!(JsonCodec::decode_frame(&mut wire).is_none());
}

#[test]
fn a_body_with_a_newline_is_not_framed() {
    let mut wire = BytesMut::from(&b"kept"[..]);
    assert_eq!(JsonCodec::encode_frame(b"two\nlines", &mut wire), Err(FrameError::DelimiterInBody));
    assert_eq!(JsonCodec::encode_frame(b"\n", &mut wire), Err(FrameError::DelimiterInBody));
    assert_eq!(&wire[..], b"kept");
}
