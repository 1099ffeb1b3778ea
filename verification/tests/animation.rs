use std::time::Duration;
use vornix_banner::renderer::{advance_frame, is_cancel_key};
use vornix_banner::terminal::KeyInput;
use vornix_banner::Animation;

#[test]
fn test_animation_new_defaults() {
    let a = Animation::new(vec![vec![String::from("x")]], 180);
    assert_eq!(a.frames.len(), 1);
    assert_eq!(a.repeat, Some(1));
    assert_eq!(a.frame_delay, Duration::from_millis(180));
}

#[test]
fn test_animation_builders() {
    let a = Animation::new(vec![], 10).repeat(None).delay_ms(25);
    assert_eq!(a.repeat, None);
    assert_eq!(a.frame_delay, Duration::from_millis(25));
    let b = a.delay(Duration::from_millis(40)).repeat(Some(3));
    assert_eq!(b.frame_delay, Duration::from_millis(40));
    assert_eq!(b.repeat, Some(3));
}

#[test]
fn test_two_frames_repeat_twice_renders_four_frames() {
    // Frames [F1, F2] with repeat = 2: F1, F2, F1, F2, then stop —
    // never a fifth render.
    let repeat = Some(2);
    let mut index: usize = 0;
    let mut completed: usize = 0;
    let mut rendered: Vec<usize> = Vec::new();
    let mut stopped = false;
    for _ in 0..10 {
        rendered.push(index);
        let (ni, nc, done) = advance_frame(index, 2, completed, repeat);
        index = ni;
        completed = nc;
        if done {
            stopped = true;
            break;
        }
    }
    assert!(stopped);
    assert_eq!(rendered, vec![0, 1, 0, 1]);
}

#[test]
fn test_escape_halts_infinite_animation() {
    // An infinite-repeat animation never finishes by itself...
    let mut index: usize = 0;
    let mut completed: usize = 0;
    for _ in 0..7 {
        let (ni, nc, done) = advance_frame(index, 2, completed, None);
        assert!(!done);
        index = ni;
        completed = nc;
    }
    assert_eq!(completed, 0);
    // ...but an Escape key press during any frame is a cancellation.
    assert!(is_cancel_key(&KeyInput::Escape));
}

#[test]
fn test_cancel_keys() {
    assert!(is_cancel_key(&KeyInput::Char('q', false)));
    assert!(is_cancel_key(&KeyInput::Char('q', true)));
    assert!(is_cancel_key(&KeyInput::Char('c', true)));
    assert!(!is_cancel_key(&KeyInput::Char('c', false)));
    assert!(!is_cancel_key(&KeyInput::Char('x', false)));
    assert!(!is_cancel_key(&KeyInput::Other));
}

#[test]
fn test_advance_within_pass() {
    assert_eq!(advance_frame(0, 3, 0, Some(1)), (1, 0, false));
    assert_eq!(advance_frame(1, 3, 0, Some(1)), (2, 0, false));
    assert_eq!(advance_frame(2, 3, 0, Some(1)), (0, 1, true));
}
