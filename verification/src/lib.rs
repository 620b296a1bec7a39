mod archive;
mod extract;
mod fetch;
mod fs_model;
mod launch;
mod paths;
mod runtime;

pub use archive::Entry;
pub use archive::EntryV;
pub use archive::ExtractError;
pub use archive::archive_len;
pub use archive::is_dir_entry;
pub use archive::open_archive;
pub use archive::read_archive;
pub use archive::read_entry;
pub use archive::zip_entries;
pub use archive::zip_parse;
pub use archive::zip_read_ok;
pub use archive::zip_readable;
pub use extract::entries_view;
pub use extract::entry_actions;
pub use extract::entry_extract_actions;
pub use extract::entry_path;
pub use extract::extract_actions;
pub use extract::extract_plan;
pub use extract::is_dir_name;
pub use extract::lemma_cleanup_removes_source;
pub use extract::lemma_extract_files;
pub use extract::lemma_extract_preserves_outside;
pub use extract::lemma_round_trip;
pub use extract::resolved_files;
pub use fetch::download_actions;
pub use fetch::download_plan;
pub use fetch::lemma_download_creates;
pub use fs_model::Action;
pub use fs_model::ActionV;
pub use fs_model::FsModel;
pub use fs_model::Node;
pub use fs_model::actions_view;
pub use fs_model::apply;
pub use fs_model::apply_all;
pub use fs_model::file_at;
pub use fs_model::lemma_apply_all_append;
pub use fs_model::lemma_apply_all_one;
pub use fs_model::lemma_apply_all_push;
pub use fs_model::lemma_apply_all_two;
pub use fs_model::lemma_remove_idempotent;
pub use fs_model::remove_path_action;
pub use fs_model::remove_tree;
pub use launch::LaunchCmd;
pub use launch::launch_plan;
pub use paths::join_path;
pub use paths::joined;
pub use paths::lemma_joined_parent_some;
pub use paths::lemma_joined_strictly_under;
pub use paths::lemma_parent_shorter;
pub use paths::lemma_parent_some;
pub use paths::parent_of;
pub use paths::parent_seq;
pub use paths::strictly_under;
pub use paths::under;
pub use runtime::covered_by_footprint;
pub use runtime::covered_by_target;
pub use runtime::covered_by_targets;
pub use runtime::footprint_actions;
pub use runtime::footprint_plan;
pub use runtime::footprint_spec;
pub use runtime::footprint_targets;
pub use runtime::install_done_message;
pub use runtime::lemma_footprint_selective;
pub use runtime::lemma_targets_selective;
pub use runtime::removal_done_message;
pub use runtime::runtime_archive_file_name;
pub use runtime::runtime_archive_url;
pub use runtime::target_action;
pub use runtime::targets_plan;
