//! A command-line argument parser: a tree of commands with options,
//! positionals and subcommands, whose matches run layers that build a value.

mod feed;
mod laws;
mod machine;
mod message;
mod page;
mod page_laws;
mod parse;
mod text;
mod types;

pub use feed::{Feed, FeedView, args_view, bytes_opt, feed_next};
pub use machine::{
    enter, few_arguments, max_arguments, run, step, tree_named, tree_ok, tree_small, well_named,
    End, Ending, Fault, Halt, Machine, Move, Phase, Request, State, Turn,
};
pub use laws::{
    good_line, law_excerpt, law_feed_forward, law_join, law_long_counts_as_given,
    law_no_layers_fixed, law_output_only_for_pages, law_parse_str_is_bytes,
    law_positional_takes_one, law_required_checked, law_short_cluster_only_last,
    law_short_runs_every_time, law_split_reassembles, law_wrap_keeps_words, law_wrap_width,
    lines_fit, no_layers, plain, subs_no_layers, visible,
};
pub use page::{concat_all, fill, help_page, join, version_page, words, wrapped};
pub use message::error_text;
pub use page_laws::{
    digits_value, is_digit, law_decimal, law_help_description, law_version_text, law_white_space,
    white_space_points,
};
pub use parse::{ends_as, error_model, parse_bytes, parse_str, reports, strs_view, written};
pub use types::{
    action_cloned, argument_cloned, error_cloned, same_action_kind, subs_cloned, tree_cloned,
    Action, Argument, ArgumentForm, Command, Config, ConfigVersion, Error, Layer, NoLayer, Output,
    OutputWriter, Success,
};
