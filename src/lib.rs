//! Push-to-talk engine: the mute state machine, the per-device event
//! filter, device classification and the hotplug-driven listener registry.
mod controller;
mod devices;
mod registry;

pub use controller::{
    effects_of, key_effect, key_events_of, law_autorepeat_is_inert, law_other_keys_are_inert,
    law_press_then_release, law_release_mutes_at_once, lemma_effects_concat, lemma_quiet_reports, lemma_state_concat,
    next_state, option_seq, state_after, Controller, ControllerView, KeyEvent, MuteCommand,
    MuteState, RawEvent, AUTOREPEAT, EV_KEY, PRESSED, RELEASED,
};
pub use devices::{
    contains_text, event_marker, event_names, has_keyboard_marker, has_substring, is_event_name,
    is_keyboard, key_code_of, keyboard_marker, keyboard_named, lower_of, occurs_at,
    resolve_target_key, select_event_names, ConfigError,
};
pub use registry::{
    classify_mask, law_delete_then_ready_readds, law_rejected_device_is_never_tracked,
    name_view, notification_action, notification_of, notification_step, probe_accepts,
    probe_step, start_records, start_step, Action, Notification, Registry, RegistryView,
    IN_ATTRIB, IN_DELETE,
};
