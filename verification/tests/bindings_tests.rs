use samurai_wm::bindings::{BindingError, KeyTable};
use samurai_wm::keymap::Layout;
use samurai_wm::protocol::{Request, MOD_4, MOD_ANY, MOD_CONTROL, MOD_SHIFT};

const XK_T: u32 = 0x74;
const XK_Q: u32 = 0x71;
const XK_Z: u32 = 0x7a;

fn layout() -> Layout {
    Layout::new(24, vec![XK_Q, 0x77, 0x65, 0x72, XK_T]).unwrap()
}

#[test]
fn bind_appends_in_registration_order() {
    let mut table: KeyTable<&str> = KeyTable::new();
    assert_eq!(table.len(), 0);
    assert_eq!(table.bind(MOD_4, XK_T, "terminal"), Ok(0));
    assert_eq!(table.bind(MOD_4 | MOD_SHIFT, XK_Q, "quit"), Ok(1));
    assert_eq!(table.len(), 2);
    let second = table.get(1).unwrap();
    assert_eq!(second.modifier_mask, MOD_4 | MOD_SHIFT);
    assert_eq!(second.symbol, XK_Q);
    assert_eq!(second.action, "quit");
    assert!(table.get(2).is_none());
}

#[test]
fn bind_refuses_a_mask_with_pointer_button_bits() {
    let mut table: KeyTable<u32> = KeyTable::new();
    assert_eq!(table.bind(0x0100, XK_T, 1), Err(BindingError::InvalidModifiers));
    assert_eq!(table.bind(MOD_4 | 0x1000, XK_T, 2), Err(BindingError::InvalidModifiers));
    assert_eq!(table.bind(0x0001_0000, XK_T, 3), Err(BindingError::InvalidModifiers));
    assert_eq!(table.len(), 0);
    assert_eq!(table.find(0x0100, XK_T), None);
}

#[test]
fn bind_accepts_every_grab_modifier_flag() {
    let mut table: KeyTable<u32> = KeyTable::new();
    assert_eq!(table.bind(0x00ff, XK_T, 1), Ok(0));
    assert_eq!(table.bind(MOD_ANY, XK_T, 2), Ok(1));
    assert_eq!(table.bind(0, XK_T, 3), Ok(2));
    assert_eq!(table.get(0).unwrap().modifier_mask, 0x00ff);
    assert_eq!(table.get(1).unwrap().modifier_mask, MOD_ANY);
}

#[test]
fn match_returns_the_binding_of_the_exact_pair() {
    let mut table: KeyTable<&str> = KeyTable::new();
    table.bind(MOD_4, XK_T, "terminal").unwrap();
    table.bind(MOD_4, XK_Q, "quit").unwrap();
    table.bind(MOD_CONTROL, XK_T, "tab").unwrap();
    assert_eq!(table.match_binding(MOD_4, XK_T), Some(&"terminal"));
    assert_eq!(table.match_binding(MOD_4, XK_Q), Some(&"quit"));
    assert_eq!(table.match_binding(MOD_CONTROL, XK_T), Some(&"tab"));
    assert_eq!(table.find(MOD_4, XK_Q), Some(1));
    assert_eq!(table.find(MOD_CONTROL, XK_T), Some(2));
}

#[test]
fn match_returns_nothing_for_subset_or_superset_masks() {
    let mut table: KeyTable<&str> = KeyTable::new();
    table.bind(MOD_4 | MOD_SHIFT, XK_T, "terminal").unwrap();
    assert_eq!(table.match_binding(MOD_4, XK_T), None);
    assert_eq!(table.match_binding(MOD_SHIFT, XK_T), None);
    assert_eq!(table.match_binding(0, XK_T), None);
    assert_eq!(table.match_binding(MOD_4 | MOD_SHIFT | MOD_CONTROL, XK_T), None);
    assert_eq!(table.match_binding(MOD_4 | MOD_SHIFT, XK_Q), None);
    assert_eq!(table.match_binding(MOD_4 | MOD_SHIFT, XK_T), Some(&"terminal"));
}

#[test]
fn match_on_an_empty_table_returns_nothing() {
    let table: KeyTable<u32> = KeyTable::new();
    assert_eq!(table.match_binding(MOD_4, XK_T), None);
    assert_eq!(table.find(0, 0), None);
}

#[test]
fn first_registered_wins_among_duplicate_pairs() {
    let mut table: KeyTable<&str> = KeyTable::new();
    table.bind(MOD_4, XK_T, "first").unwrap();
    table.bind(MOD_4, XK_T, "second").unwrap();
    table.bind(MOD_SHIFT, XK_Q, "other").unwrap();
    assert_eq!(table.find(MOD_4, XK_T), Some(0));
    assert_eq!(table.match_binding(MOD_4, XK_T), Some(&"first"));
}

#[test]
fn grab_requests_release_stale_grabs_first() {
    let table: KeyTable<u32> = KeyTable::new();
    assert_eq!(table.grab_requests(&layout()), vec![Request::UngrabAllKeys]);
}

#[test]
fn grab_requests_hold_one_grab_for_each_resolvable_binding() {
    let mut table: KeyTable<u32> = KeyTable::new();
    table.bind(MOD_4, XK_T, 1).unwrap();
    table.bind(MOD_4 | MOD_SHIFT, XK_Q, 2).unwrap();
    assert_eq!(
        table.grab_requests(&layout()),
        vec![
            Request::UngrabAllKeys,
            Request::GrabKey { modifiers: MOD_4, keycode: 28 },
            Request::GrabKey { modifiers: MOD_4 | MOD_SHIFT, keycode: 24 },
        ]
    );
}

#[test]
fn unresolvable_binding_does_not_block_the_others() {
    let mut table: KeyTable<u32> = KeyTable::new();
    table.bind(MOD_4, XK_Z, 1).unwrap();
    table.bind(MOD_4, XK_T, 2).unwrap();
    table.bind(MOD_CONTROL, 0, 3).unwrap();
    table.bind(MOD_CONTROL, XK_Q, 4).unwrap();
    assert_eq!(
        table.grab_requests(&layout()),
        vec![
            Request::UngrabAllKeys,
            Request::GrabKey { modifiers: MOD_4, keycode: 28 },
            Request::GrabKey { modifiers: MOD_CONTROL, keycode: 24 },
        ]
    );
    // the unresolved bindings stay registered
    assert_eq!(table.len(), 4);
    assert_eq!(table.find(MOD_4, XK_Z), Some(0));
}

#[test]
fn no_binding_resolves_under_an_empty_layout() {
    let mut table: KeyTable<u32> = KeyTable::new();
    table.bind(MOD_4, XK_T, 1).unwrap();
    let empty = Layout::new(8, Vec::new()).unwrap();
    assert_eq!(table.grab_requests(&empty), vec![Request::UngrabAllKeys]);
}
