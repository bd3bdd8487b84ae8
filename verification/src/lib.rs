//! A small journal database over a flat directory of text files.
//!
//! Each entry file may start with a YAML front-matter block, closed by a
//! line holding `---`; the block carries the entry's tags and identifier.
//! This crate holds the verified core: the eligibility filter for journal
//! paths, the front-matter parser with its tag normalization, and the pure
//! decision logic of the command-line use cases. The surrounding process
//! (directory walking, file reading, the editor) lives outside the library
//! and hands plain values in.

use vstd::prelude::*;

mod chars;
mod eligible;
mod entry;
mod meta;
mod query;
mod strutil;
mod tags;
mod yaml;

pub use chars::is_ws_char;
pub use eligible::{ext_of, file_name_of, is_jrnl_path, spec_is_jrnl_path};
pub use entry::{
    all_scalars, body_lines_for, decode_outcome, delim_idx, err_for, find_delim, has_delim,
    is_delim_line, lemma_parse_deterministic, line_is_delim, meta_for, spec_id, tag_seq, Entry,
    FileInfo,
};
pub use meta::{map_get, map_set, pairs_map, pview, unique_keys, MetaVal, MetaValue};
pub use query::{
    all_tags, all_wf, choose_entry_id, collect_ids, count_of, counts_wf, entry_filename,
    entry_tag_strs, find_entry_by_id, new_entry_content, sort_by_count, sorted_by_count, spec_ids,
    spec_new_entry_content, tag_counts,
};
pub use strutil::{join_lines, join_range, spec_join, spec_split, spec_trim, split_char, trim_str};
pub use tags::{normalize_tags, spec_normalize_tags};
pub use yaml::yaml_map_of;
