//! Decision logic of a tool that keeps a Voicemeeter audio engine in sync with
//! hot-plugged USB audio devices: command-line parsing, device-name cleanup,
//! Task Scheduler XML generation and the small text encodings these need.

pub mod decimal;
pub mod device;
pub mod flow;
pub mod options;
pub mod task;
pub mod task_layout;
pub mod text;
pub mod utf16;
pub mod voicemeeter;
pub mod xml;

pub use decimal::{i32_to_decimal, parse_u64, u64_to_decimal};
pub use device::{
    a1_display, clean_device_name, device_filter_from_a1, find_driver_prefix,
    hardware_name_after_prefix,
};
pub use flow::{
    install_after_a1, install_after_admin_check, install_after_registration, next_restart_step,
    restart_is_interactive, restart_options_failure, status_report, task_query_outcome,
    uninstall_after_admin_check,
    uninstall_after_removal, InstallStep, Line, RestartEvent, RestartStep, TaskOptions,
    UninstallStep,
};
pub use options::{
    asks_for_help, check_device, check_user, is_wildcard_device_str, parse_command, parse_options,
    parse_options_for, Command, OptionScope,
    ParsedArgs, DEFAULT_DELAY_MS, MAX_DELAY_MS,
};
pub use task::{
    deletion_result, generate_task_xml, schtasks_delete_failure_message, schtasks_failure_message,
    TASK_NAME,
};
pub use text::{lines_of, trim_str, white_space};
pub use utf16::{string_from_wide_buffer, to_wide, utf16le_text, utf16le_with_bom};
pub use voicemeeter::{
    find_voicemeeter_dll, lists_voicemeeter_process, next_remote_action,
    tasklist_shows_voicemeeter, dll_file_name, dll_search_list, first_found,
    install_folder_from_uninstall_string, is_voicemeeter_image, RemoteAction,
    RemoteEvent, SessionKind, DIRTY_POLL_INTERVAL_MS, DIRTY_POLL_LIMIT,
};
