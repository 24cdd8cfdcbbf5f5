use opendesktools::clipboard::ClipboardWriteContent;
use opendesktools::input::{
    paste_outcome,
    input_target_requirement, send_ctrl_v, ClipboardInputError, InputApi, KeyInput,
    SurfaceInputTargetRequirement,
};

#[test]
fn files_require_a_focused_descendant_but_text_and_images_do_not() {
    assert_eq!(
        input_target_requirement(&ClipboardWriteContent::Files {
            paths: vec![vec![b'C' as u16]],
        }),
        SurfaceInputTargetRequirement::FocusedDescendant
    );
    assert_eq!(
        input_target_requirement(&ClipboardWriteContent::Text("text".to_owned())),
        SurfaceInputTargetRequirement::ActiveTarget
    );
    assert_eq!(
        input_target_requirement(&ClipboardWriteContent::Image {
            width: 1,
            height: 1,
            rgba: vec![0, 0, 0, 0],
        }),
        SurfaceInputTargetRequirement::ActiveTarget
    );
}

struct FakeInput {
    modifier: bool,
    results: Vec<usize>,
    calls: Vec<Vec<KeyInput>>,
}

impl InputApi for FakeInput {
    fn modifier_answers(&self) -> vstd::seq::Seq<bool> {
        unreachable!()
    }
    fn sent(&self) -> vstd::seq::Seq<(vstd::seq::Seq<KeyInput>, usize)> {
        unreachable!()
    }
    fn modifier_pressed(&mut self) -> bool {
        self.modifier
    }
    fn send(&mut self, inputs: &[KeyInput]) -> usize {
        self.calls.push(inputs.to_vec());
        self.results.remove(0)
    }
}

#[test]
fn modifier_state_rejects_without_input_and_partial_send_releases_pressed_keys() {
    let mut modifier = FakeInput {
        modifier: true,
        results: vec![],
        calls: vec![],
    };
    assert!(matches!(
        send_ctrl_v(&mut modifier),
        Err(ClipboardInputError::ModifierPressed)
    ));
    assert!(modifier.calls.is_empty());
    let mut partial = FakeInput {
        modifier: false,
        results: vec![2, 2],
        calls: vec![],
    };
    assert!(matches!(
        send_ctrl_v(&mut partial),
        Err(ClipboardInputError::InputDenied)
    ));
    assert_eq!(
        partial.calls[1],
        vec![
            KeyInput {
                virtual_key: 0x56,
                key_up: true
            },
            KeyInput {
                virtual_key: 0x11,
                key_up: true
            }
        ]
    );
}

#[test]
fn complete_ctrl_v_sequence_is_inserted_in_order() {
    let mut api = FakeInput {
        modifier: false,
        results: vec![4],
        calls: vec![],
    };
    send_ctrl_v(&mut api).unwrap();
    assert_eq!(
        api.calls[0][0],
        KeyInput {
            virtual_key: 0x11,
            key_up: false
        }
    );
    assert_eq!(
        api.calls[0][3],
        KeyInput {
            virtual_key: 0x11,
            key_up: true
        }
    );
}

#[test]
fn every_partial_prefix_is_cleaned_and_cleanup_denial_is_explicit() {
    for inserted in 0..4 {
        let cleanup_len = match inserted {
            0 => 0,
            1 => 1,
            _ => 2,
        };
        let mut results = vec![inserted];
        if cleanup_len > 0 {
            results.push(cleanup_len);
        }
        let mut api = FakeInput {
            modifier: false,
            results,
            calls: vec![],
        };
        assert!(matches!(
            send_ctrl_v(&mut api),
            Err(ClipboardInputError::InputDenied)
        ));
    }

    let mut denied = FakeInput {
        modifier: false,
        results: vec![1, 0, 0],
        calls: vec![],
    };
    assert!(matches!(
        send_ctrl_v(&mut denied),
        Err(ClipboardInputError::InputCleanupDenied)
    ));

    let mut continues_after_first_release_failure = FakeInput {
        modifier: false,
        results: vec![2, 0, 0, 1],
        calls: vec![],
    };
    assert!(matches!(
        send_ctrl_v(&mut continues_after_first_release_failure),
        Err(ClipboardInputError::InputCleanupDenied)
    ));
    assert_eq!(continues_after_first_release_failure.calls.len(), 4);
    assert_eq!(
        continues_after_first_release_failure.calls[3],
        vec![KeyInput {
            virtual_key: 0x11,
            key_up: true
        }]
    );
}

#[test]
fn paste_outcome_follows_the_keyboard_answers() {
    assert_eq!(paste_outcome(true, 0, 0, false), Err(ClipboardInputError::ModifierPressed));
    assert_eq!(paste_outcome(false, 4, 0, false), Ok(()));
    assert_eq!(paste_outcome(false, 0, 0, false), Err(ClipboardInputError::InputDenied));
    assert_eq!(paste_outcome(false, 2, 2, false), Err(ClipboardInputError::InputDenied));
    assert_eq!(paste_outcome(false, 2, 1, true), Err(ClipboardInputError::InputDenied));
    assert_eq!(paste_outcome(false, 2, 1, false), Err(ClipboardInputError::InputCleanupDenied));
}

#[test]
fn paste_sends_each_release_alone_after_a_short_batch() {
    let mut api = FakeInput {
        modifier: false,
        results: vec![2, 0, 0, 1],
        calls: vec![],
    };
    assert_eq!(send_ctrl_v(&mut api), Err(ClipboardInputError::InputCleanupDenied));
    assert_eq!(api.calls.len(), 4);
    assert_eq!(api.calls[2].len(), 1);
    assert_eq!(api.calls[3].len(), 1);
}
