//! What a child takes the words of `MAKEFLAGS` for.

use crate::bytes::{after_prefix, all_digits, begins, decimal, digits_value, lossy, text};
use crate::carrying::{
    an_assignment_is_a_word, assignment_words, dashed_apart, each_behind, handed, jobs_word,
    load_word, shuffle_word, spelled_plainly, switches_open_with_a_dash, sync_word, table_words,
    the_table_is_dashed, what_is_published_is_split_back, word_where, words_behind,
};
use crate::command::{argument_of, arguments_of, asked_for, paired, parsed, Asked};
use crate::invocation::{file_named, nothing_asked, Around, Settings};
use crate::makeflags::{assigned, firsts, group, letters, load_shown, published, words_in};
use crate::options::{facets, ArgumentSource, JobLimit, OutputSync, Shuffle, Switch};
use crate::parsing::{
    attached_read, cluster_read, ignored_letter_read, ignored_long, ignored_read, is_long,
    is_option, option_moves, option_read, other_long_read, read_on, separated_read, shuffle_read,
    style_read, takes_a_word, word_read, words_read,
};
use crate::report::Reported;
use vstd::prelude::*;
use vstd::string::*;

verus! {

/// The bytes by which the long spellings are told apart.
proof fn asked_for_bytes()
    ensures
        text("--always-make").len() == 13,
        text("--always-make")[1] == 0x2d,
        text("--always-make")[2] == 0x61,
        text("--always-make")[3] == 0x6c,
        text("--always-make")[6] == 0x79,
        text("--always-make")[7] == 0x73,
        text("--always-make")[9] == 0x6d,
        text("--dry-run").len() == 9,
        text("--dry-run")[1] == 0x2d,
        text("--dry-run")[2] == 0x64,
        text("--dry-run")[3] == 0x72,
        text("--dry-run")[6] == 0x72,
        text("--dry-run")[7] == 0x75,
        text("--just-print").len() == 12,
        text("--just-print")[1] == 0x2d,
        text("--just-print")[2] == 0x6a,
        text("--just-print")[3] == 0x75,
        text("--just-print")[6] == 0x2d,
        text("--just-print")[7] == 0x70,
        text("--just-print")[9] == 0x69,
        text("--recon").len() == 7,
        text("--recon")[1] == 0x2d,
        text("--recon")[2] == 0x72,
        text("--recon")[3] == 0x65,
        text("--recon")[6] == 0x6e,
        text("--environment-overrides").len() == 23,
        text("--environment-overrides")[1] == 0x2d,
        text("--environment-overrides")[2] == 0x65,
        text("--environment-overrides")[3] == 0x6e,
        text("--environment-overrides")[6] == 0x72,
        text("--environment-overrides")[7] == 0x6f,
        text("--environment-overrides")[9] == 0x6d,
        text("--ignore-errors").len() == 15,
        text("--ignore-errors")[1] == 0x2d,
        text("--ignore-errors")[2] == 0x69,
        text("--ignore-errors")[3] == 0x67,
        text("--ignore-errors")[6] == 0x72,
        text("--ignore-errors")[7] == 0x65,
        text("--ignore-errors")[9] == 0x65,
        text("--keep-going").len() == 12,
        text("--keep-going")[1] == 0x2d,
        text("--keep-going")[2] == 0x6b,
        text("--keep-going")[3] == 0x65,
        text("--keep-going")[6] == 0x2d,
        text("--keep-going")[7] == 0x67,
        text("--keep-going")[9] == 0x69,
        text("--no-builtin-rules").len() == 18,
        text("--no-builtin-rules")[1] == 0x2d,
        text("--no-builtin-rules")[2] == 0x6e,
        text("--no-builtin-rules")[3] == 0x6f,
        text("--no-builtin-rules")[6] == 0x75,
        text("--no-builtin-rules")[7] == 0x69,
        text("--no-builtin-rules")[9] == 0x74,
{
    assert(text("--always-make").len() == 13 && text("--always-make")[1] == 0x2d
        && text("--always-make")[2] == 0x61 && text("--always-make")[3] == 0x6c
        && text("--always-make")[6] == 0x79 && text("--always-make")[7] == 0x73
        && text("--always-make")[9] == 0x6d) by {
        reveal_strlit("--always-make");
        is_ascii_spec_bytes("--always-make");
    }
    assert(text("--dry-run").len() == 9 && text("--dry-run")[1] == 0x2d
        && text("--dry-run")[2] == 0x64 && text("--dry-run")[3] == 0x72
        && text("--dry-run")[6] == 0x72 && text("--dry-run")[7] == 0x75) by {
        reveal_strlit("--dry-run");
        is_ascii_spec_bytes("--dry-run");
    }
    assert(text("--just-print").len() == 12 && text("--just-print")[1] == 0x2d
        && text("--just-print")[2] == 0x6a && text("--just-print")[3] == 0x75
        && text("--just-print")[6] == 0x2d && text("--just-print")[7] == 0x70
        && text("--just-print")[9] == 0x69) by {
        reveal_strlit("--just-print");
        is_ascii_spec_bytes("--just-print");
    }
    assert(text("--recon").len() == 7 && text("--recon")[1] == 0x2d && text("--recon")[2] == 0x72
        && text("--recon")[3] == 0x65 && text("--recon")[6] == 0x6e) by {
        reveal_strlit("--recon");
        is_ascii_spec_bytes("--recon");
    }
    assert(text("--environment-overrides").len() == 23
        && text("--environment-overrides")[1] == 0x2d
        && text("--environment-overrides")[2] == 0x65
        && text("--environment-overrides")[3] == 0x6e
        && text("--environment-overrides")[6] == 0x72
        && text("--environment-overrides")[7] == 0x6f
        && text("--environment-overrides")[9] == 0x6d) by {
        reveal_strlit("--environment-overrides");
        is_ascii_spec_bytes("--environment-overrides");
    }
    assert(text("--ignore-errors").len() == 15 && text("--ignore-errors")[1] == 0x2d
        && text("--ignore-errors")[2] == 0x69 && text("--ignore-errors")[3] == 0x67
        && text("--ignore-errors")[6] == 0x72 && text("--ignore-errors")[7] == 0x65
        && text("--ignore-errors")[9] == 0x65) by {
        reveal_strlit("--ignore-errors");
        is_ascii_spec_bytes("--ignore-errors");
    }
    assert(text("--keep-going").len() == 12 && text("--keep-going")[1] == 0x2d
        && text("--keep-going")[2] == 0x6b && text("--keep-going")[3] == 0x65
        && text("--keep-going")[6] == 0x2d && text("--keep-going")[7] == 0x67
        && text("--keep-going")[9] == 0x69) by {
        reveal_strlit("--keep-going");
        is_ascii_spec_bytes("--keep-going");
    }
    assert(text("--no-builtin-rules").len() == 18 && text("--no-builtin-rules")[1] == 0x2d
        && text("--no-builtin-rules")[2] == 0x6e && text("--no-builtin-rules")[3] == 0x6f
        && text("--no-builtin-rules")[6] == 0x75 && text("--no-builtin-rules")[7] == 0x69
        && text("--no-builtin-rules")[9] == 0x74) by {
        reveal_strlit("--no-builtin-rules");
        is_ascii_spec_bytes("--no-builtin-rules");
    }
}

proof fn more_asked_for_bytes()
    ensures
        text("--no-builtin-variables").len() == 22,
        text("--no-builtin-variables")[1] == 0x2d,
        text("--no-builtin-variables")[2] == 0x6e,
        text("--no-builtin-variables")[3] == 0x6f,
        text("--no-builtin-variables")[6] == 0x75,
        text("--no-builtin-variables")[7] == 0x69,
        text("--no-builtin-variables")[9] == 0x74,
        text("--print-directory").len() == 17,
        text("--print-directory")[1] == 0x2d,
        text("--print-directory")[2] == 0x70,
        text("--print-directory")[3] == 0x72,
        text("--print-directory")[6] == 0x74,
        text("--print-directory")[7] == 0x2d,
        text("--print-directory")[9] == 0x69,
        text("--question").len() == 10,
        text("--question")[1] == 0x2d,
        text("--question")[2] == 0x71,
        text("--question")[3] == 0x75,
        text("--question")[6] == 0x74,
        text("--question")[7] == 0x69,
        text("--question")[9] == 0x6e,
        text("--silent").len() == 8,
        text("--silent")[1] == 0x2d,
        text("--silent")[2] == 0x73,
        text("--silent")[3] == 0x69,
        text("--silent")[6] == 0x6e,
        text("--silent")[7] == 0x74,
        text("--quiet").len() == 7,
        text("--quiet")[1] == 0x2d,
        text("--quiet")[2] == 0x71,
        text("--quiet")[3] == 0x75,
        text("--quiet")[6] == 0x74,
        text("--touch").len() == 7,
        text("--touch")[1] == 0x2d,
        text("--touch")[2] == 0x74,
        text("--touch")[3] == 0x6f,
        text("--touch")[6] == 0x68,
        text("--trace").len() == 7,
        text("--trace")[1] == 0x2d,
        text("--trace")[2] == 0x74,
        text("--trace")[3] == 0x72,
        text("--trace")[6] == 0x65,
        text("--warn-undefined-variables").len() == 26,
        text("--warn-undefined-variables")[1] == 0x2d,
        text("--warn-undefined-variables")[2] == 0x77,
        text("--warn-undefined-variables")[3] == 0x61,
        text("--warn-undefined-variables")[6] == 0x2d,
        text("--warn-undefined-variables")[7] == 0x75,
        text("--warn-undefined-variables")[9] == 0x64,
{
    assert(text("--no-builtin-variables").len() == 22 && text("--no-builtin-variables")[1] == 0x2d
        && text("--no-builtin-variables")[2] == 0x6e && text("--no-builtin-variables")[3] == 0x6f
        && text("--no-builtin-variables")[6] == 0x75 && text("--no-builtin-variables")[7] == 0x69
        && text("--no-builtin-variables")[9] == 0x74) by {
        reveal_strlit("--no-builtin-variables");
        is_ascii_spec_bytes("--no-builtin-variables");
    }
    assert(text("--print-directory").len() == 17 && text("--print-directory")[1] == 0x2d
        && text("--print-directory")[2] == 0x70 && text("--print-directory")[3] == 0x72
        && text("--print-directory")[6] == 0x74 && text("--print-directory")[7] == 0x2d
        && text("--print-directory")[9] == 0x69) by {
        reveal_strlit("--print-directory");
        is_ascii_spec_bytes("--print-directory");
    }
    assert(text("--question").len() == 10 && text("--question")[1] == 0x2d
        && text("--question")[2] == 0x71 && text("--question")[3] == 0x75
        && text("--question")[6] == 0x74 && text("--question")[7] == 0x69
        && text("--question")[9] == 0x6e) by {
        reveal_strlit("--question");
        is_ascii_spec_bytes("--question");
    }
    assert(text("--silent").len() == 8 && text("--silent")[1] == 0x2d
        && text("--silent")[2] == 0x73 && text("--silent")[3] == 0x69
        && text("--silent")[6] == 0x6e && text("--silent")[7] == 0x74) by {
        reveal_strlit("--silent");
        is_ascii_spec_bytes("--silent");
    }
    assert(text("--quiet").len() == 7 && text("--quiet")[1] == 0x2d && text("--quiet")[2] == 0x71
        && text("--quiet")[3] == 0x75 && text("--quiet")[6] == 0x74) by {
        reveal_strlit("--quiet");
        is_ascii_spec_bytes("--quiet");
    }
    assert(text("--touch").len() == 7 && text("--touch")[1] == 0x2d && text("--touch")[2] == 0x74
        && text("--touch")[3] == 0x6f && text("--touch")[6] == 0x68) by {
        reveal_strlit("--touch");
        is_ascii_spec_bytes("--touch");
    }
    assert(text("--trace").len() == 7 && text("--trace")[1] == 0x2d && text("--trace")[2] == 0x74
        && text("--trace")[3] == 0x72 && text("--trace")[6] == 0x65) by {
        reveal_strlit("--trace");
        is_ascii_spec_bytes("--trace");
    }
    assert(text("--warn-undefined-variables").len() == 26
        && text("--warn-undefined-variables")[1] == 0x2d
        && text("--warn-undefined-variables")[2] == 0x77
        && text("--warn-undefined-variables")[3] == 0x61
        && text("--warn-undefined-variables")[6] == 0x2d
        && text("--warn-undefined-variables")[7] == 0x75
        && text("--warn-undefined-variables")[9] == 0x64) by {
        reveal_strlit("--warn-undefined-variables");
        is_ascii_spec_bytes("--warn-undefined-variables");
    }
}

proof fn taken_back_bytes()
    ensures
        text("--no-keep-going").len() == 15,
        text("--no-keep-going")[1] == 0x2d,
        text("--no-keep-going")[2] == 0x6e,
        text("--no-keep-going")[3] == 0x6f,
        text("--no-keep-going")[6] == 0x65,
        text("--no-keep-going")[7] == 0x65,
        text("--no-keep-going")[9] == 0x2d,
        text("--stop").len() == 6,
        text("--stop")[1] == 0x2d,
        text("--stop")[2] == 0x73,
        text("--stop")[3] == 0x74,
        text("--no-print-directory").len() == 20,
        text("--no-print-directory")[1] == 0x2d,
        text("--no-print-directory")[2] == 0x6e,
        text("--no-print-directory")[3] == 0x6f,
        text("--no-print-directory")[6] == 0x72,
        text("--no-print-directory")[7] == 0x69,
        text("--no-print-directory")[9] == 0x74,
        text("--no-silent").len() == 11,
        text("--no-silent")[1] == 0x2d,
        text("--no-silent")[2] == 0x6e,
        text("--no-silent")[3] == 0x6f,
        text("--no-silent")[6] == 0x69,
        text("--no-silent")[7] == 0x6c,
        text("--no-silent")[9] == 0x6e,
{
    assert(text("--no-keep-going").len() == 15 && text("--no-keep-going")[1] == 0x2d
        && text("--no-keep-going")[2] == 0x6e && text("--no-keep-going")[3] == 0x6f
        && text("--no-keep-going")[6] == 0x65 && text("--no-keep-going")[7] == 0x65
        && text("--no-keep-going")[9] == 0x2d) by {
        reveal_strlit("--no-keep-going");
        is_ascii_spec_bytes("--no-keep-going");
    }
    assert(text("--stop").len() == 6 && text("--stop")[1] == 0x2d && text("--stop")[2] == 0x73
        && text("--stop")[3] == 0x74) by {
        reveal_strlit("--stop");
        is_ascii_spec_bytes("--stop");
    }
    assert(text("--no-print-directory").len() == 20 && text("--no-print-directory")[1] == 0x2d
        && text("--no-print-directory")[2] == 0x6e && text("--no-print-directory")[3] == 0x6f
        && text("--no-print-directory")[6] == 0x72 && text("--no-print-directory")[7] == 0x69
        && text("--no-print-directory")[9] == 0x74) by {
        reveal_strlit("--no-print-directory");
        is_ascii_spec_bytes("--no-print-directory");
    }
    assert(text("--no-silent").len() == 11 && text("--no-silent")[1] == 0x2d
        && text("--no-silent")[2] == 0x6e && text("--no-silent")[3] == 0x6f
        && text("--no-silent")[6] == 0x69 && text("--no-silent")[7] == 0x6c
        && text("--no-silent")[9] == 0x6e) by {
        reveal_strlit("--no-silent");
        is_ascii_spec_bytes("--no-silent");
    }
}

proof fn option_bytes()
    ensures
        text("--").len() == 2,
        text("--")[1] == 0x2d,
        text("--version").len() == 9,
        text("--version")[1] == 0x2d,
        text("--version")[2] == 0x76,
        text("--version")[3] == 0x65,
        text("--version")[6] == 0x69,
        text("--version")[7] == 0x6f,
        text("--help").len() == 6,
        text("--help")[1] == 0x2d,
        text("--help")[2] == 0x68,
        text("--help")[3] == 0x65,
        text("--output-sync").len() == 13,
        text("--output-sync")[1] == 0x2d,
        text("--output-sync")[2] == 0x6f,
        text("--output-sync")[3] == 0x75,
        text("--output-sync")[6] == 0x75,
        text("--output-sync")[7] == 0x74,
        text("--output-sync")[9] == 0x73,
        text("--debug").len() == 7,
        text("--debug")[1] == 0x2d,
        text("--debug")[2] == 0x64,
        text("--debug")[3] == 0x65,
        text("--debug")[6] == 0x67,
        text("--debug=").len() == 8,
        text("--debug=")[1] == 0x2d,
        text("--debug=")[2] == 0x64,
        text("--debug=")[3] == 0x65,
        text("--debug=")[6] == 0x67,
        text("--debug=")[7] == 0x3d,
        text("--shuffle").len() == 9,
        text("--shuffle")[1] == 0x2d,
        text("--shuffle")[2] == 0x73,
        text("--shuffle")[3] == 0x68,
        text("--shuffle")[6] == 0x66,
        text("--shuffle")[7] == 0x6c,
{
    assert(text("--").len() == 2 && text("--")[1] == 0x2d) by {
        reveal_strlit("--");
        is_ascii_spec_bytes("--");
    }
    assert(text("--version").len() == 9 && text("--version")[1] == 0x2d
        && text("--version")[2] == 0x76 && text("--version")[3] == 0x65
        && text("--version")[6] == 0x69 && text("--version")[7] == 0x6f) by {
        reveal_strlit("--version");
        is_ascii_spec_bytes("--version");
    }
    assert(text("--help").len() == 6 && text("--help")[1] == 0x2d && text("--help")[2] == 0x68
        && text("--help")[3] == 0x65) by {
        reveal_strlit("--help");
        is_ascii_spec_bytes("--help");
    }
    assert(text("--output-sync").len() == 13 && text("--output-sync")[1] == 0x2d
        && text("--output-sync")[2] == 0x6f && text("--output-sync")[3] == 0x75
        && text("--output-sync")[6] == 0x75 && text("--output-sync")[7] == 0x74
        && text("--output-sync")[9] == 0x73) by {
        reveal_strlit("--output-sync");
        is_ascii_spec_bytes("--output-sync");
    }
    assert(text("--debug").len() == 7 && text("--debug")[1] == 0x2d && text("--debug")[2] == 0x64
        && text("--debug")[3] == 0x65 && text("--debug")[6] == 0x67) by {
        reveal_strlit("--debug");
        is_ascii_spec_bytes("--debug");
    }
    assert(text("--debug=").len() == 8 && text("--debug=")[1] == 0x2d
        && text("--debug=")[2] == 0x64 && text("--debug=")[3] == 0x65
        && text("--debug=")[6] == 0x67 && text("--debug=")[7] == 0x3d) by {
        reveal_strlit("--debug=");
        is_ascii_spec_bytes("--debug=");
    }
    assert(text("--shuffle").len() == 9 && text("--shuffle")[1] == 0x2d
        && text("--shuffle")[2] == 0x73 && text("--shuffle")[3] == 0x68
        && text("--shuffle")[6] == 0x66 && text("--shuffle")[7] == 0x6c) by {
        reveal_strlit("--shuffle");
        is_ascii_spec_bytes("--shuffle");
    }
}

proof fn more_option_bytes()
    ensures
        text("--shuffle=").len() == 10,
        text("--shuffle=")[1] == 0x2d,
        text("--shuffle=")[2] == 0x73,
        text("--shuffle=")[3] == 0x68,
        text("--shuffle=")[6] == 0x66,
        text("--shuffle=")[7] == 0x6c,
        text("--shuffle=")[9] == 0x3d,
        text("--jobs").len() == 6,
        text("--jobs")[1] == 0x2d,
        text("--jobs")[2] == 0x6a,
        text("--jobs")[3] == 0x6f,
        text("--jobserver-style").len() == 17,
        text("--jobserver-style")[1] == 0x2d,
        text("--jobserver-style")[2] == 0x6a,
        text("--jobserver-style")[3] == 0x6f,
        text("--jobserver-style")[6] == 0x65,
        text("--jobserver-style")[7] == 0x72,
        text("--jobserver-style")[9] == 0x65,
        text("--jobserver-style=").len() == 18,
        text("--jobserver-style=")[1] == 0x2d,
        text("--jobserver-style=")[2] == 0x6a,
        text("--jobserver-style=")[3] == 0x6f,
        text("--jobserver-style=")[6] == 0x65,
        text("--jobserver-style=")[7] == 0x72,
        text("--jobserver-style=")[9] == 0x65,
        text("--load-average").len() == 14,
        text("--load-average")[1] == 0x2d,
        text("--load-average")[2] == 0x6c,
        text("--load-average")[3] == 0x6f,
        text("--load-average")[6] == 0x2d,
        text("--load-average")[7] == 0x61,
        text("--load-average")[9] == 0x65,
        text("--max-load").len() == 10,
        text("--max-load")[1] == 0x2d,
        text("--max-load")[2] == 0x6d,
        text("--max-load")[3] == 0x61,
        text("--max-load")[6] == 0x6c,
        text("--max-load")[7] == 0x6f,
        text("--max-load")[9] == 0x64,
{
    assert(text("--shuffle=").len() == 10 && text("--shuffle=")[1] == 0x2d
        && text("--shuffle=")[2] == 0x73 && text("--shuffle=")[3] == 0x68
        && text("--shuffle=")[6] == 0x66 && text("--shuffle=")[7] == 0x6c
        && text("--shuffle=")[9] == 0x3d) by {
        reveal_strlit("--shuffle=");
        is_ascii_spec_bytes("--shuffle=");
    }
    assert(text("--jobs").len() == 6 && text("--jobs")[1] == 0x2d && text("--jobs")[2] == 0x6a
        && text("--jobs")[3] == 0x6f) by {
        reveal_strlit("--jobs");
        is_ascii_spec_bytes("--jobs");
    }
    assert(text("--jobserver-style").len() == 17 && text("--jobserver-style")[1] == 0x2d
        && text("--jobserver-style")[2] == 0x6a && text("--jobserver-style")[3] == 0x6f
        && text("--jobserver-style")[6] == 0x65 && text("--jobserver-style")[7] == 0x72
        && text("--jobserver-style")[9] == 0x65) by {
        reveal_strlit("--jobserver-style");
        is_ascii_spec_bytes("--jobserver-style");
    }
    assert(text("--jobserver-style=").len() == 18 && text("--jobserver-style=")[1] == 0x2d
        && text("--jobserver-style=")[2] == 0x6a && text("--jobserver-style=")[3] == 0x6f
        && text("--jobserver-style=")[6] == 0x65 && text("--jobserver-style=")[7] == 0x72
        && text("--jobserver-style=")[9] == 0x65) by {
        reveal_strlit("--jobserver-style=");
        is_ascii_spec_bytes("--jobserver-style=");
    }
    assert(text("--load-average").len() == 14 && text("--load-average")[1] == 0x2d
        && text("--load-average")[2] == 0x6c && text("--load-average")[3] == 0x6f
        && text("--load-average")[6] == 0x2d && text("--load-average")[7] == 0x61
        && text("--load-average")[9] == 0x65) by {
        reveal_strlit("--load-average");
        is_ascii_spec_bytes("--load-average");
    }
    assert(text("--max-load").len() == 10 && text("--max-load")[1] == 0x2d
        && text("--max-load")[2] == 0x6d && text("--max-load")[3] == 0x61
        && text("--max-load")[6] == 0x6c && text("--max-load")[7] == 0x6f
        && text("--max-load")[9] == 0x64) by {
        reveal_strlit("--max-load");
        is_ascii_spec_bytes("--max-load");
    }
}

proof fn worded_bytes()
    ensures
        text("--file").len() == 6,
        text("--file")[1] == 0x2d,
        text("--file")[2] == 0x66,
        text("--file")[3] == 0x69,
        text("--makefile").len() == 10,
        text("--makefile")[1] == 0x2d,
        text("--makefile")[2] == 0x6d,
        text("--makefile")[3] == 0x61,
        text("--makefile")[6] == 0x66,
        text("--makefile")[7] == 0x69,
        text("--makefile")[9] == 0x65,
        text("--directory").len() == 11,
        text("--directory")[1] == 0x2d,
        text("--directory")[2] == 0x64,
        text("--directory")[3] == 0x69,
        text("--directory")[6] == 0x63,
        text("--directory")[7] == 0x74,
        text("--directory")[9] == 0x72,
        text("--include-dir").len() == 13,
        text("--include-dir")[1] == 0x2d,
        text("--include-dir")[2] == 0x69,
        text("--include-dir")[3] == 0x6e,
        text("--include-dir")[6] == 0x75,
        text("--include-dir")[7] == 0x64,
        text("--include-dir")[9] == 0x2d,
        text("--eval").len() == 6,
        text("--eval")[1] == 0x2d,
        text("--eval")[2] == 0x65,
        text("--eval")[3] == 0x76,
        text("--what-if").len() == 9,
        text("--what-if")[1] == 0x2d,
        text("--what-if")[2] == 0x77,
        text("--what-if")[3] == 0x68,
        text("--what-if")[6] == 0x2d,
        text("--what-if")[7] == 0x69,
        text("--new-file").len() == 10,
        text("--new-file")[1] == 0x2d,
        text("--new-file")[2] == 0x6e,
        text("--new-file")[3] == 0x65,
        text("--new-file")[6] == 0x66,
        text("--new-file")[7] == 0x69,
        text("--new-file")[9] == 0x65,
        text("--assume-new").len() == 12,
        text("--assume-new")[1] == 0x2d,
        text("--assume-new")[2] == 0x61,
        text("--assume-new")[3] == 0x73,
        text("--assume-new")[6] == 0x6d,
        text("--assume-new")[7] == 0x65,
        text("--assume-new")[9] == 0x6e,
{
    assert(text("--file").len() == 6 && text("--file")[1] == 0x2d && text("--file")[2] == 0x66
        && text("--file")[3] == 0x69) by {
        reveal_strlit("--file");
        is_ascii_spec_bytes("--file");
    }
    assert(text("--makefile").len() == 10 && text("--makefile")[1] == 0x2d
        && text("--makefile")[2] == 0x6d && text("--makefile")[3] == 0x61
        && text("--makefile")[6] == 0x66 && text("--makefile")[7] == 0x69
        && text("--makefile")[9] == 0x65) by {
        reveal_strlit("--makefile");
        is_ascii_spec_bytes("--makefile");
    }
    assert(text("--directory").len() == 11 && text("--directory")[1] == 0x2d
        && text("--directory")[2] == 0x64 && text("--directory")[3] == 0x69
        && text("--directory")[6] == 0x63 && text("--directory")[7] == 0x74
        && text("--directory")[9] == 0x72) by {
        reveal_strlit("--directory");
        is_ascii_spec_bytes("--directory");
    }
    assert(text("--include-dir").len() == 13 && text("--include-dir")[1] == 0x2d
        && text("--include-dir")[2] == 0x69 && text("--include-dir")[3] == 0x6e
        && text("--include-dir")[6] == 0x75 && text("--include-dir")[7] == 0x64
        && text("--include-dir")[9] == 0x2d) by {
        reveal_strlit("--include-dir");
        is_ascii_spec_bytes("--include-dir");
    }
    assert(text("--eval").len() == 6 && text("--eval")[1] == 0x2d && text("--eval")[2] == 0x65
        && text("--eval")[3] == 0x76) by {
        reveal_strlit("--eval");
        is_ascii_spec_bytes("--eval");
    }
    assert(text("--what-if").len() == 9 && text("--what-if")[1] == 0x2d
        && text("--what-if")[2] == 0x77 && text("--what-if")[3] == 0x68
        && text("--what-if")[6] == 0x2d && text("--what-if")[7] == 0x69) by {
        reveal_strlit("--what-if");
        is_ascii_spec_bytes("--what-if");
    }
    assert(text("--new-file").len() == 10 && text("--new-file")[1] == 0x2d
        && text("--new-file")[2] == 0x6e && text("--new-file")[3] == 0x65
        && text("--new-file")[6] == 0x66 && text("--new-file")[7] == 0x69
        && text("--new-file")[9] == 0x65) by {
        reveal_strlit("--new-file");
        is_ascii_spec_bytes("--new-file");
    }
    assert(text("--assume-new").len() == 12 && text("--assume-new")[1] == 0x2d
        && text("--assume-new")[2] == 0x61 && text("--assume-new")[3] == 0x73
        && text("--assume-new")[6] == 0x6d && text("--assume-new")[7] == 0x65
        && text("--assume-new")[9] == 0x6e) by {
        reveal_strlit("--assume-new");
        is_ascii_spec_bytes("--assume-new");
    }
}

proof fn attached_bytes()
    ensures
        text("--file=").len() == 7,
        text("--file=")[1] == 0x2d,
        text("--file=")[2] == 0x66,
        text("--file=")[3] == 0x69,
        text("--file=")[6] == 0x3d,
        text("--makefile=").len() == 11,
        text("--makefile=")[1] == 0x2d,
        text("--makefile=")[2] == 0x6d,
        text("--makefile=")[3] == 0x61,
        text("--makefile=")[6] == 0x66,
        text("--makefile=")[7] == 0x69,
        text("--makefile=")[9] == 0x65,
        text("--directory=").len() == 12,
        text("--directory=")[1] == 0x2d,
        text("--directory=")[2] == 0x64,
        text("--directory=")[3] == 0x69,
        text("--directory=")[6] == 0x63,
        text("--directory=")[7] == 0x74,
        text("--directory=")[9] == 0x72,
        text("--include-dir=").len() == 14,
        text("--include-dir=")[1] == 0x2d,
        text("--include-dir=")[2] == 0x69,
        text("--include-dir=")[3] == 0x6e,
        text("--include-dir=")[6] == 0x75,
        text("--include-dir=")[7] == 0x64,
        text("--include-dir=")[9] == 0x2d,
        text("--what-if=").len() == 10,
        text("--what-if=")[1] == 0x2d,
        text("--what-if=")[2] == 0x77,
        text("--what-if=")[3] == 0x68,
        text("--what-if=")[6] == 0x2d,
        text("--what-if=")[7] == 0x69,
        text("--what-if=")[9] == 0x3d,
        text("--new-file=").len() == 11,
        text("--new-file=")[1] == 0x2d,
        text("--new-file=")[2] == 0x6e,
        text("--new-file=")[3] == 0x65,
        text("--new-file=")[6] == 0x66,
        text("--new-file=")[7] == 0x69,
        text("--new-file=")[9] == 0x65,
        text("--assume-new=").len() == 13,
        text("--assume-new=")[1] == 0x2d,
        text("--assume-new=")[2] == 0x61,
        text("--assume-new=")[3] == 0x73,
        text("--assume-new=")[6] == 0x6d,
        text("--assume-new=")[7] == 0x65,
        text("--assume-new=")[9] == 0x6e,
        text("--eval=").len() == 7,
        text("--eval=")[1] == 0x2d,
        text("--eval=")[2] == 0x65,
        text("--eval=")[3] == 0x76,
        text("--eval=")[6] == 0x3d,
{
    assert(text("--file=").len() == 7 && text("--file=")[1] == 0x2d && text("--file=")[2] == 0x66
        && text("--file=")[3] == 0x69 && text("--file=")[6] == 0x3d) by {
        reveal_strlit("--file=");
        is_ascii_spec_bytes("--file=");
    }
    assert(text("--makefile=").len() == 11 && text("--makefile=")[1] == 0x2d
        && text("--makefile=")[2] == 0x6d && text("--makefile=")[3] == 0x61
        && text("--makefile=")[6] == 0x66 && text("--makefile=")[7] == 0x69
        && text("--makefile=")[9] == 0x65) by {
        reveal_strlit("--makefile=");
        is_ascii_spec_bytes("--makefile=");
    }
    assert(text("--directory=").len() == 12 && text("--directory=")[1] == 0x2d
        && text("--directory=")[2] == 0x64 && text("--directory=")[3] == 0x69
        && text("--directory=")[6] == 0x63 && text("--directory=")[7] == 0x74
        && text("--directory=")[9] == 0x72) by {
        reveal_strlit("--directory=");
        is_ascii_spec_bytes("--directory=");
    }
    assert(text("--include-dir=").len() == 14 && text("--include-dir=")[1] == 0x2d
        && text("--include-dir=")[2] == 0x69 && text("--include-dir=")[3] == 0x6e
        && text("--include-dir=")[6] == 0x75 && text("--include-dir=")[7] == 0x64
        && text("--include-dir=")[9] == 0x2d) by {
        reveal_strlit("--include-dir=");
        is_ascii_spec_bytes("--include-dir=");
    }
    assert(text("--what-if=").len() == 10 && text("--what-if=")[1] == 0x2d
        && text("--what-if=")[2] == 0x77 && text("--what-if=")[3] == 0x68
        && text("--what-if=")[6] == 0x2d && text("--what-if=")[7] == 0x69
        && text("--what-if=")[9] == 0x3d) by {
        reveal_strlit("--what-if=");
        is_ascii_spec_bytes("--what-if=");
    }
    assert(text("--new-file=").len() == 11 && text("--new-file=")[1] == 0x2d
        && text("--new-file=")[2] == 0x6e && text("--new-file=")[3] == 0x65
        && text("--new-file=")[6] == 0x66 && text("--new-file=")[7] == 0x69
        && text("--new-file=")[9] == 0x65) by {
        reveal_strlit("--new-file=");
        is_ascii_spec_bytes("--new-file=");
    }
    assert(text("--assume-new=").len() == 13 && text("--assume-new=")[1] == 0x2d
        && text("--assume-new=")[2] == 0x61 && text("--assume-new=")[3] == 0x73
        && text("--assume-new=")[6] == 0x6d && text("--assume-new=")[7] == 0x65
        && text("--assume-new=")[9] == 0x6e) by {
        reveal_strlit("--assume-new=");
        is_ascii_spec_bytes("--assume-new=");
    }
    assert(text("--eval=").len() == 7 && text("--eval=")[1] == 0x2d && text("--eval=")[2] == 0x65
        && text("--eval=")[3] == 0x76 && text("--eval=")[6] == 0x3d) by {
        reveal_strlit("--eval=");
        is_ascii_spec_bytes("--eval=");
    }
}

/// A spelling with one dash is no long one.
pub(crate) proof fn a_short_word(word: Seq<u8>)
    requires
        word.len() > 1,
        word[0] == 0x2d,
        word[1] != 0x2d,
    ensures
        is_option(word),
        Switch::of_name(word) is None,
        Switch::of_negating_name(word) is None,
        word != text("--"),
{
    asked_for_bytes();
    more_asked_for_bytes();
    taken_back_bytes();
    option_bytes();
    assert(text("-").len() == 1) by {
        reveal_strlit("-");
        is_ascii_spec_bytes("-");
    }
}

pub(crate) proof fn a_short_word_is_a_cluster(
    settings: Settings,
    source: ArgumentSource,
    arguments: Seq<Seq<u8>>,
    at: int,
)
    requires
        arguments[at].len() > 1,
        arguments[at][0] == 0x2d,
        arguments[at][1] != 0x2d,
        arguments[at][1] != 0x76,
    ensures
        option_read(settings, source, arguments, at) == cluster_read(
            settings,
            source,
            arguments[at],
            arguments,
            at,
            1,
        ),
{
    reveal(option_read);
    option_bytes();
    more_option_bytes();
    worded_bytes();
    let word = arguments[at];
    assert(text("-v").len() == 2 && text("-v")[1] == 0x76) by {
        reveal_strlit("-v");
        is_ascii_spec_bytes("-v");
    }
    let (debug, shuffle, style, long) = (
        text("--debug="),
        text("--shuffle="),
        text("--jobserver-style="),
        text("--"),
    );
    if begins(word, debug) {
        assert(word.subrange(0, debug.len() as int)[1] == debug[1]);
    }
    if begins(word, shuffle) {
        assert(word.subrange(0, shuffle.len() as int)[1] == shuffle[1]);
    }
    if begins(word, style) {
        assert(word.subrange(0, style.len() as int)[1] == style[1]);
    }
    if begins(word, long) {
        assert(word.subrange(0, long.len() as int)[1] == long[1]);
    }
}

/// Reading goes on behind a short word that was taken well.
proof fn a_cluster_is_read(
    settings: Settings,
    source: ArgumentSource,
    arguments: Seq<Seq<u8>>,
    at: int,
    after: Settings,
)
    requires
        0 <= at < arguments.len(),
        arguments[at].len() > 1,
        arguments[at][0] == 0x2d,
        arguments[at][1] != 0x2d,
        arguments[at][1] != 0x76,
        cluster_read(settings, source, arguments[at], arguments, at, 1) == read_on(after, at),
        after.bad is None,
    ensures
        words_read(settings, source, arguments, at, true) == words_read(
            after,
            source,
            arguments,
            at + 1,
            true,
        ),
{
    a_short_word(arguments[at]);
    a_short_word_is_a_cluster(settings, source, arguments, at);
}

/// The argument attached to a letter.
spec fn lettered(letter: u8, argument: Seq<u8>) -> Seq<u8> {
    seq![0x2du8, letter] + argument
}

proof fn a_directory_is_read(
    settings: Settings,
    source: ArgumentSource,
    arguments: Seq<Seq<u8>>,
    at: int,
    named: Seq<u8>,
)
    requires
        0 <= at < arguments.len(),
        arguments[at] == lettered(0x49, named),
        named.len() > 0,
        settings.bad is None,
    ensures
        words_read(settings, source, arguments, at, true) == words_read(
            settings.with_include_dir(source, named),
            source,
            arguments,
            at + 1,
            true,
        ),
{
    assert(arguments[at].skip(2) =~= named);
    a_cluster_is_read(settings, source, arguments, at, settings.with_include_dir(source, named));
}

proof fn a_load_is_read(
    settings: Settings,
    source: ArgumentSource,
    arguments: Seq<Seq<u8>>,
    at: int,
    ceiling: Seq<u8>,
)
    requires
        0 <= at < arguments.len(),
        arguments[at] == lettered(0x6c, ceiling),
        ceiling.len() > 0,
        settings.bad is None,
    ensures
        words_read(settings, source, arguments, at, true) == words_read(
            (Settings { load: Some((ceiling, true)), ..settings }),
            source,
            arguments,
            at + 1,
            true,
        ),
{
    assert(arguments[at].skip(2) =~= ceiling);
    a_cluster_is_read(
        settings,
        source,
        arguments,
        at,
        Settings { load: Some((ceiling, true)), ..settings },
    );
}

proof fn a_count_is_read(
    settings: Settings,
    source: ArgumentSource,
    arguments: Seq<Seq<u8>>,
    at: int,
    count: usize,
)
    requires
        0 <= at < arguments.len(),
        arguments[at] == lettered(0x6a, decimal(count as nat)),
        count > 0,
        settings.bad is None,
    ensures
        words_read(settings, source, arguments, at, true) == words_read(
            settings.with_jobs(source, JobLimit::Fixed(count)),
            source,
            arguments,
            at + 1,
            true,
        ),
{
    let digits = decimal(count as nat);
    assert(arguments[at].skip(2) =~= digits);
    digits_are_read(count as nat);
    a_cluster_is_read(
        settings,
        source,
        arguments,
        at,
        settings.with_jobs(source, JobLimit::Fixed(count)),
    );
}

/// A number written in digits is read as that number.
pub(crate) proof fn digits_are_read(value: nat)
    ensures
        decimal(value).len() > 0,
        all_digits(decimal(value)),
        digits_value(decimal(value)) == value,
        decimal(value)[0] != 0x2b,
    decreases value,
{
    let digits = decimal(value);
    if value >= 10 {
        digits_are_read(value / 10);
        assert(digits.drop_last() =~= decimal(value / 10));
        assert(digits[0] == decimal(value / 10)[0]);
    } else {
        assert(digits.drop_last() =~= Seq::<u8>::empty());
        assert(digits_value(digits.drop_last()) == 0);
        assert(digits.last() == 48 + value);
    }
}

proof fn no_count_is_read(
    settings: Settings,
    source: ArgumentSource,
    arguments: Seq<Seq<u8>>,
    at: int,
)
    requires
        0 <= at < arguments.len(),
        arguments[at] == lettered(0x6a, Seq::empty()),
        at + 1 < arguments.len() ==> arguments[at + 1].len() > 0 && arguments[at + 1][0] == 0x2d,
        settings.bad is None,
    ensures
        words_read(settings, source, arguments, at, true) == words_read(
            settings.with_jobs(source, JobLimit::Unlimited),
            source,
            arguments,
            at + 1,
            true,
        ),
{
    assert(arguments[at].skip(2) =~= Seq::<u8>::empty());
    if at + 1 < arguments.len() {
        assert(!all_digits(arguments[at + 1]));
    }
    a_cluster_is_read(
        settings,
        source,
        arguments,
        at,
        settings.with_jobs(source, JobLimit::Unlimited),
    );
}

/// The kinds of output synchronisation are told apart by their spellings.
proof fn kinds_are_read(sync: OutputSync)
    ensures
        sync.spelled().len() > 2,
        sync.spelled()[0] == 0x2d,
        sync.spelled()[1] == 0x4f,
        OutputSync::named(sync.spelled().skip(2)) == Some(sync),
{
    assert(text("-Onone").len() == 6 && text("-Onone")[0] == 0x2d && text("-Onone")[1] == 0x4f
        && text("-Onone").skip(2) =~= text("none") && text("none").len() == 4 && text("none")[0]
        == 0x6e) by {
        reveal_strlit("-Onone");
        is_ascii_spec_bytes("-Onone");
        reveal_strlit("none");
        is_ascii_spec_bytes("none");
    }
    assert(text("-Oline").len() == 6 && text("-Oline")[0] == 0x2d && text("-Oline")[1] == 0x4f
        && text("-Oline").skip(2) =~= text("line") && text("line").len() == 4 && text("line")[0]
        == 0x6c) by {
        reveal_strlit("-Oline");
        is_ascii_spec_bytes("-Oline");
        reveal_strlit("line");
        is_ascii_spec_bytes("line");
    }
    assert(text("-Otarget").len() == 8 && text("-Otarget")[0] == 0x2d && text("-Otarget")[1] == 0x4f
        && text("-Otarget").skip(2) =~= text("target") && text("target").len() == 6 && text(
        "target",
    )[0] == 0x74) by {
        reveal_strlit("-Otarget");
        is_ascii_spec_bytes("-Otarget");
        reveal_strlit("target");
        is_ascii_spec_bytes("target");
    }
    assert(text("-Orecurse").len() == 9 && text("-Orecurse")[0] == 0x2d && text("-Orecurse")[1]
        == 0x4f && text("-Orecurse").skip(2) =~= text("recurse") && text("recurse").len() == 7
        && text("recurse")[0] == 0x72) by {
        reveal_strlit("-Orecurse");
        is_ascii_spec_bytes("-Orecurse");
        reveal_strlit("recurse");
        is_ascii_spec_bytes("recurse");
    }
}

proof fn a_kind_is_read(
    settings: Settings,
    source: ArgumentSource,
    arguments: Seq<Seq<u8>>,
    at: int,
    sync: OutputSync,
)
    requires
        0 <= at < arguments.len(),
        arguments[at] == sync.spelled(),
        settings.bad is None,
    ensures
        words_read(settings, source, arguments, at, true) == words_read(
            (Settings { output_sync: Some(sync), ..settings }),
            source,
            arguments,
            at + 1,
            true,
        ),
{
    kinds_are_read(sync);
    a_cluster_is_read(
        settings,
        source,
        arguments,
        at,
        Settings { output_sync: Some(sync), ..settings },
    );
}

/// A switch's own name asks for it or takes it back.
proof fn switch_names()
    ensures
        Switch::of_name(text("--trace")) == Some(Switch::Trace),
        Switch::of_name(text("--warn-undefined-variables")) == Some(Switch::WarnUndefinedVariables),
{
    asked_for_bytes();
    more_asked_for_bytes();
}

/// The names that take back keeping going are options, and ask for nothing.
pub(crate) proof fn going_on_is_taken_back()
    ensures
        Switch::of_name(text("--no-keep-going")) is None,
        Switch::of_negating_name(text("--no-keep-going")) == Some(Switch::KeepGoing),
        is_option(text("--no-keep-going")),
        Switch::of_name(text("--stop")) is None,
        Switch::of_negating_name(text("--stop")) == Some(Switch::KeepGoing),
        is_option(text("--stop")),
{
    asked_for_bytes();
    more_asked_for_bytes();
    taken_back_bytes();
    reveal_strlit("-");
    is_ascii_spec_bytes("-");
    reveal_strlit("--no-keep-going");
    is_ascii_spec_bytes("--no-keep-going");
    reveal_strlit("--stop");
    is_ascii_spec_bytes("--stop");
}

proof fn taken_back_names()
    ensures
        Switch::of_name(text("--no-print-directory")) is None,
        Switch::of_negating_name(text("--no-print-directory")) == Some(Switch::PrintDirectory),
        Switch::of_name(text("--no-silent")) is None,
        Switch::of_negating_name(text("--no-silent")) == Some(Switch::Silent),
{
    asked_for_bytes();
    more_asked_for_bytes();
    taken_back_bytes();
}

/// A word with two dashes is an option.
proof fn a_long_word(word: Seq<u8>)
    requires
        word.len() > 1,
        word[0] == 0x2d,
    ensures
        is_option(word),
{
    assert(text("-").len() == 1) by {
        reveal_strlit("-");
        is_ascii_spec_bytes("-");
    }
}

proof fn an_attached_word_names_no_switch(word: Seq<u8>, equals: int)
    requires
        equals == 6 || equals == 7 || equals == 9,
        word.len() > equals,
        word[equals] == 0x3d,
    ensures
        Switch::of_name(word) is None,
        Switch::of_negating_name(word) is None,
        word != text("--"),
{
    asked_for_bytes();
    more_asked_for_bytes();
    taken_back_bytes();
    option_bytes();
}

proof fn a_debug_word_is_read(
    settings: Settings,
    source: ArgumentSource,
    arguments: Seq<Seq<u8>>,
    at: int,
    named: Seq<u8>,
)
    requires
        0 <= at < arguments.len(),
        arguments[at] == text("--debug=") + named,
        named.len() > 0,
        facets(0, named, 0) is Some,
        settings.bad is None,
    ensures
        words_read(settings, source, arguments, at, true) == words_read(
            settings.with_debug(source, named),
            source,
            arguments,
            at + 1,
            true,
        ),
{
    let word = arguments[at];
    assert(word.len() > 7 && word[0] == 0x2d && word[1] == 0x2d && word[7] == 0x3d && text(
        "--debug=",
    ).len() == 8) by {
        option_bytes();
        first_bytes();
    }
    a_long_word(word);
    an_attached_word_names_no_switch(word, 7);
    a_value_stands_apart(word, 7);
    a_long_word_is_long(word);
    assert(word.subrange(0, 8) =~= text("--debug="));
    assert(word.skip(8) =~= named);
    assert(option_read(settings, source, arguments, at) == read_on(
        settings.with_debug(source, named),
        at,
    )) by {
        reveal(option_read);
    }
}

/// A word with its value behind an `=` is none of those that stand alone and
/// are asked about first.
proof fn a_value_stands_apart(word: Seq<u8>, equals: int)
    requires
        equals == 7 || equals == 9,
        word.len() > equals,
        word[equals] == 0x3d,
    ensures
        word != text("--version"),
        word != text("--help"),
        word != text("--output-sync"),
        word != text("--debug"),
{
    option_bytes();
}

/// The spellings whose value is attached begin with a dash.
proof fn first_bytes()
    ensures
        text("--debug=")[0] == 0x2d,
        text("--shuffle=")[0] == 0x2d,
        text("--eval=")[0] == 0x2d,
        text("--")[0] == 0x2d,
{
    assert(text("--debug=")[0] == 0x2d) by {
        reveal_strlit("--debug=");
        is_ascii_spec_bytes("--debug=");
    }
    assert(text("--shuffle=")[0] == 0x2d) by {
        reveal_strlit("--shuffle=");
        is_ascii_spec_bytes("--shuffle=");
    }
    assert(text("--eval=")[0] == 0x2d) by {
        reveal_strlit("--eval=");
        is_ascii_spec_bytes("--eval=");
    }
    assert(text("--")[0] == 0x2d) by {
        reveal_strlit("--");
        is_ascii_spec_bytes("--");
    }
}

proof fn a_shuffle_is_read(
    settings: Settings,
    arguments: Seq<Seq<u8>>,
    at: int,
    named: Seq<u8>,
    mode: Shuffle,
)
    requires
        0 <= at < arguments.len(),
        arguments[at] == text("--shuffle=") + named,
        named.len() > 0,
        Shuffle::asked(named, settings.around.seed) == Some(mode),
        settings.bad is None,
    ensures
        words_read(settings, ArgumentSource::Inherited, arguments, at, true) == words_read(
            (Settings { shuffle: mode, shuffle_spelling: mode.spelled(), ..settings }),
            ArgumentSource::Inherited,
            arguments,
            at + 1,
            true,
        ),
{
    let word = arguments[at];
    let source = ArgumentSource::Inherited;
    let after = Settings { shuffle: mode, shuffle_spelling: mode.spelled(), ..settings };
    assert(word.len() > 9 && word[0] == 0x2d && word[1] == 0x2d && word[2] == 0x73 && word[9]
        == 0x3d && text("--shuffle=").len() == 10) by {
        more_option_bytes();
        first_bytes();
    }
    a_long_word(word);
    an_attached_word_names_no_switch(word, 9);
    a_value_stands_apart(word, 9);
    a_long_word_is_long(word);
    assert(after_prefix(word, text("--debug=")) is None) by {
        option_bytes();
        opens_otherwise(word, text("--debug="));
    }
    assert(word.subrange(0, 10) =~= text("--shuffle="));
    assert(word.skip(10) =~= named);
    assert(option_read(settings, source, arguments, at) == read_on(after, at)) by {
        reveal(option_read);
        reveal(shuffle_read);
    }
}

proof fn an_eval_is_attached(
    settings: Settings,
    source: ArgumentSource,
    arguments: Seq<Seq<u8>>,
    at: int,
    named: Seq<u8>,
)
    requires
        0 <= at < arguments.len(),
        arguments[at] == text("--eval=") + named,
    ensures
        other_long_read(settings, source, arguments[at], arguments, at) == read_on(
            settings.with_eval(source, named),
            at,
        ),
{
    let word = arguments[at];
    attached_bytes();
    reveal(other_long_read);
    reveal(attached_read);
    assert(word[2] == text("--eval=")[2]);
    assert(word.subrange(0, 7) =~= text("--eval="));
    assert(word.skip(7) =~= named);
    opens_otherwise(word, text("--file="));
    opens_otherwise(word, text("--makefile="));
    opens_otherwise(word, text("--directory="));
    opens_otherwise(word, text("--include-dir="));
    opens_otherwise(word, text("--what-if="));
    opens_otherwise(word, text("--new-file="));
    opens_otherwise(word, text("--assume-new="));
}

proof fn opens_otherwise(word: Seq<u8>, prefix: Seq<u8>)
    requires
        prefix.len() > 2,
        word.len() > 2,
        word[2] != prefix[2],
    ensures
        !begins(word, prefix),
        after_prefix(word, prefix) is None,
{
    if begins(word, prefix) {
        assert(word.subrange(0, prefix.len() as int)[2] == prefix[2]);
    }
}

/// A word with its value behind an `=` in its seventh place is none of those
/// that stand alone.
proof fn an_eval_stands_apart(word: Seq<u8>)
    requires
        word.len() > 6,
        word[6] == 0x3d,
    ensures
        word != text("--version"),
        word != text("--help"),
        word != text("--output-sync"),
        word != text("--debug"),
        word != text("--shuffle"),
        word != text("--jobs"),
        word != text("--jobserver-style"),
        word != text("--load-average"),
        word != text("--max-load"),
        !takes_a_word(word),
{
    option_bytes();
    more_option_bytes();
    worded_bytes();
}

proof fn a_long_word_is_long(word: Seq<u8>)
    requires
        word.len() > 2,
        word[0] == 0x2d,
        word[1] == 0x2d,
    ensures
        is_long(word),
        word != text("-v"),
{
    option_bytes();
    first_bytes();
    assert(word.subrange(0, 2) =~= text("--"));
    assert(text("-v").len() == 2) by {
        reveal_strlit("-v");
        is_ascii_spec_bytes("-v");
    }
}

proof fn an_eval_opens_otherwise(word: Seq<u8>)
    requires
        word.len() > 2,
        word[2] == 0x65,
    ensures
        after_prefix(word, text("--debug=")) is None,
        after_prefix(word, text("--shuffle=")) is None,
        !begins(word, text("--jobserver-style=")),
{
    option_bytes();
    more_option_bytes();
    opens_otherwise(word, text("--debug="));
    opens_otherwise(word, text("--shuffle="));
    opens_otherwise(word, text("--jobserver-style="));
}

proof fn an_eval_is_read(
    settings: Settings,
    source: ArgumentSource,
    arguments: Seq<Seq<u8>>,
    at: int,
    named: Seq<u8>,
)
    requires
        0 <= at < arguments.len(),
        arguments[at] == text("--eval=") + named,
        named.len() > 0,
        settings.bad is None,
    ensures
        words_read(settings, source, arguments, at, true) == words_read(
            settings.with_eval(source, named),
            source,
            arguments,
            at + 1,
            true,
        ),
{
    let word = arguments[at];
    assert(word.len() > 6 && word[0] == 0x2d && word[1] == 0x2d && word[2] == 0x65 && word[6]
        == 0x3d) by {
        attached_bytes();
        first_bytes();
    }
    a_long_word(word);
    an_attached_word_names_no_switch(word, 6);
    an_eval_is_attached(settings, source, arguments, at, named);
    an_eval_stands_apart(word);
    a_long_word_is_long(word);
    an_eval_opens_otherwise(word);
    assert(option_read(settings, source, arguments, at) == read_on(
        settings.with_eval(source, named),
        at,
    )) by {
        reveal(option_read);
    }
}

/// The end of the options is read, and every word behind it as what it is.
pub(crate) proof fn the_end_is_read(settings: Settings, source: ArgumentSource, arguments: Seq<Seq<u8>>, at: int)
    requires
        0 <= at < arguments.len(),
        arguments[at] == text("--"),
        settings.bad is None,
    ensures
        words_read(settings, source, arguments, at, true) == words_read(
            settings,
            source,
            arguments,
            at + 1,
            false,
        ),
{
    asked_for_bytes();
    more_asked_for_bytes();
    taken_back_bytes();
    option_bytes();
    first_bytes();
    a_long_word(arguments[at]);
    assert(option_read(settings, source, arguments, at) == read_on(settings, at)) by {
        reveal(option_read);
    }
}

proof fn assignments_are_read(
    settings: Settings,
    source: ArgumentSource,
    arguments: Seq<Seq<u8>>,
    at: int,
)
    requires
        0 <= at <= arguments.len(),
        forall|i: int| at <= i < arguments.len() ==> (#[trigger] arguments[i]).contains(0x3d),
    ensures
        words_read(settings, source, arguments, at, false) == (
            (Settings { variables: settings.variables + arguments.skip(at), ..settings }),
            None::<Reported>,
        ),
    decreases arguments.len() - at,
{
    if at < arguments.len() {
        let word = arguments[at];
        assert(text("-").len() == 1 && text("-")[0] == 0x2d) by {
            reveal_strlit("-");
            is_ascii_spec_bytes("-");
        }
        let after = word_read(settings, word);
        assert(after.variables == settings.variables.push(word));
        assignments_are_read(after, source, arguments, at + 1);
        assert(settings.variables.push(word) + arguments.skip(at + 1) =~= settings.variables
            + arguments.skip(at));
    } else {
        assert(settings.variables + arguments.skip(at) =~= settings.variables);
    }
}

/// Where a switch stands in the letter group, behind its end where it has no
/// place in it.
spec fn place(switch: Switch) -> int {
    match switch {
        Switch::AlwaysMake => 0,
        Switch::Debug => 1,
        Switch::EnvironmentOverrides => 2,
        Switch::IgnoreErrors => 3,
        Switch::KeepGoing => 4,
        Switch::DryRun => 5,
        Switch::Question => 6,
        Switch::NoBuiltinRules => 7,
        Switch::NoBuiltinVariables => 8,
        Switch::Silent => 9,
        Switch::Touch => 11,
        Switch::PrintDirectory => 12,
        _ => 13,
    }
}

/// Whether the letter at one place of the group is written.
spec fn spoken(parent: Settings, at: int) -> bool {
    let (switch, letter, asserted) = group(at);
    (asserted && parent.given.contains(switch)) || (!asserted && parent.refused.contains(switch))
}

/// What the first letters of the group leave an invocation with.
spec fn told(settings: Settings, parent: Settings, count: int) -> Settings
    decreases count,
{
    if count <= 0 {
        settings
    } else {
        let (switch, letter, asserted) = group(count - 1);
        let before = told(settings, parent, count - 1);
        if !spoken(parent, count - 1) {
            before
        } else if asserted {
            before.with(switch)
        } else {
            before.without(switch)
        }
    }
}

/// Whether the switches of an invocation are as parsing leaves them: none both
/// asked for and taken back, only those taken back that can be, and the
/// built-in rules gone where the built-in variables are.
pub open spec fn consistent(settings: Settings) -> bool {
    &&& forall|switch: Switch|
        !(#[trigger] settings.given.contains(switch) && settings.refused.contains(switch))
    &&& forall|switch: Switch| #[trigger]
        settings.refused.contains(switch) ==> switch == Switch::KeepGoing || switch
            == Switch::PrintDirectory || switch == Switch::Silent
    &&& settings.given.contains(Switch::NoBuiltinVariables) ==> settings.given.contains(
        Switch::NoBuiltinRules,
    )
}

proof fn letters_tell(settings: Settings, parent: Settings, count: int)
    requires
        0 <= count <= 13,
        consistent(parent),
        settings.given == Set::<Switch>::empty(),
        settings.refused == Set::<Switch>::empty(),
    ensures
        ({
            let after = told(settings, parent, count);
            &&& after == (Settings { given: after.given, refused: after.refused, ..settings })
            &&& forall|switch: Switch| #[trigger]
                after.given.contains(switch) <==> parent.given.contains(switch) && place(switch)
                    < count
            &&& forall|switch: Switch| #[trigger]
                after.refused.contains(switch) <==> switch == Switch::KeepGoing && count > 10
                    && parent.refused.contains(switch)
        }),
    decreases count,
{
    if count > 0 {
        letters_tell(settings, parent, count - 1);
        let before = told(settings, parent, count - 1);
        let after = told(settings, parent, count);
        let (switch, letter, asserted) = group(count - 1);
        assert(parent.given.contains(Switch::NoBuiltinVariables) ==> parent.given.contains(
            Switch::NoBuiltinRules,
        ));
        assert(!(parent.given.contains(Switch::KeepGoing) && parent.refused.contains(
            Switch::KeepGoing,
        )));
        assert forall|other: Switch| #[trigger]
            after.given.contains(other) <==> parent.given.contains(other) && place(other)
                < count by {
            assert(before.given.contains(other) <==> parent.given.contains(other) && place(other)
                < count - 1);
        }
        assert forall|other: Switch| #[trigger]
            after.refused.contains(other) <==> other == Switch::KeepGoing && count > 10
                && parent.refused.contains(other) by {
            assert(before.refused.contains(other) <==> other == Switch::KeepGoing && count - 1 > 10
                && parent.refused.contains(other));
        }
    }
}

proof fn letters_continue(parent: Settings, few: int, count: int)
    requires
        0 <= few <= count,
    ensures
        letters(parent, few).len() <= letters(parent, count).len(),
        letters(parent, count).take(letters(parent, few).len() as int) == letters(parent, few),
    decreases count - few,
{
    if few < count {
        letters_continue(parent, few, count - 1);
        let before = letters(parent, count - 1);
        let all = letters(parent, count);
        let some = letters(parent, few);
        assert(all.take(some.len() as int) =~= before.take(some.len() as int));
    } else {
        assert(letters(parent, count).take(letters(parent, few).len() as int) =~= letters(
            parent,
            few,
        ));
    }
}

/// The cluster the letter group is written as tells what it says.
proof fn the_group_is_read(
    settings: Settings,
    parent: Settings,
    arguments: Seq<Seq<u8>>,
    at: int,
    count: int,
)
    requires
        0 <= count <= 13,
        0 <= at < arguments.len(),
        arguments[at] == seq![0x2du8] + letters(parent, 13),
    ensures
        cluster_read(settings, ArgumentSource::Inherited, arguments[at], arguments, at, 1)
            == cluster_read(
            told(settings, parent, count),
            ArgumentSource::Inherited,
            arguments[at],
            arguments,
            at,
            1 + letters(parent, count).len() as int,
        ),
    decreases count,
{
    if count > 0 {
        the_group_is_read(settings, parent, arguments, at, count - 1);
        if spoken(parent, count - 1) {
            let (switch, letter, asserted) = group(count - 1);
            let before = letters(parent, count - 1);
            letters_continue(parent, count, 13);
            let some = letters(parent, count);
            assert(letters(parent, 13).take(some.len() as int)[before.len() as int] == letter);
            assert(arguments[at][1 + before.len() as int] == letter);
            assert(asserted ==> Switch::of_letter(letter) == Some(switch));
            assert(!asserted ==> Switch::of_letter(letter) is None && Switch::of_negating_letter(
                letter,
            ) == Some(switch));
        }
    }
}

/// Whether what is left of a list from one place on is some words.
spec fn left_at(arguments: Seq<Seq<u8>>, at: int, words: Seq<Seq<u8>>) -> bool {
    &&& 0 <= at
    &&& at + words.len() == arguments.len()
    &&& arguments.skip(at) == words
}

proof fn left_behind(
    arguments: Seq<Seq<u8>>,
    at: int,
    first: Seq<Seq<u8>>,
    rest: Seq<Seq<u8>>,
)
    requires
        left_at(arguments, at, first + rest),
    ensures
        left_at(arguments, at + first.len(), rest),
        forall|i: int| 0 <= i < first.len() ==> #[trigger] first[i] == arguments[at + i],
{
    let all = first + rest;
    assert(arguments.skip(at + first.len()) =~= rest) by {
        assert forall|i: int| 0 <= i < rest.len() implies arguments[at + first.len() + i]
            == rest[i] by {
            assert(arguments.skip(at)[first.len() + i] == all[first.len() + i]);
        }
    }
    assert forall|i: int| 0 <= i < first.len() implies #[trigger] first[i] == arguments[at + i] by {
        assert(arguments.skip(at)[i] == all[i]);
    }
}

/// Whether a directory is named as the search list keeps it.
pub open spec fn named_as_kept(around: Around, named: Seq<u8>) -> bool {
    &&& named.len() > 0
    &&& lossy(named) == named
    &&& named == text("-") || file_named(around, named) == named
}

proof fn directories_are_read(
    settings: Settings,
    arguments: Seq<Seq<u8>>,
    at: int,
    dirs: Seq<Seq<u8>>,
    count: int,
)
    requires
        0 <= count <= dirs.len(),
        0 <= at,
        at + dirs.len() <= arguments.len(),
        forall|i: int|
            0 <= i < dirs.len() ==> arguments[at + i] == text("-I") + lossy(#[trigger] dirs[i]),
        forall|i: int|
            0 <= i < dirs.len() ==> named_as_kept(settings.around, #[trigger] dirs[i]),
        dirs.no_duplicates(),
        settings.include_dirs.len() == 0,
        settings.bad is None,
    ensures
        words_read(settings, ArgumentSource::Inherited, arguments, at, true) == words_read(
            (Settings { include_dirs: dirs.take(count), ..settings }),
            ArgumentSource::Inherited,
            arguments,
            at + count,
            true,
        ),
    decreases count,
{
    if count > 0 {
        directories_are_read(settings, arguments, at, dirs, count - 1);
        let before = Settings { include_dirs: dirs.take(count - 1), ..settings };
        let named = dirs[count - 1];
        assert(text("-I") =~= seq![0x2du8, 0x49u8]) by {
            reveal_strlit("-I");
            is_ascii_spec_bytes("-I");
        }
        a_directory_is_read(before, ArgumentSource::Inherited, arguments, at + count - 1, named);
        assert(!before.include_dirs.contains(named)) by {
            if before.include_dirs.contains(named) {
                let i = choose|i: int| 0 <= i < count - 1 && before.include_dirs[i] == named;
                assert(dirs[i] == dirs[count - 1]);
            }
        }
        assert(dirs.take(count - 1).push(named) =~= dirs.take(count));
    } else {
        assert(dirs.take(0) =~= settings.include_dirs);
    }
}

/// Whether a `--debug` argument is one.
pub open spec fn names_facets(named: Seq<u8>) -> bool {
    &&& named.len() > 0
    &&& lossy(named) == named
    &&& facets(0, named, 0) is Some
}

proof fn debug_words_are_read(
    settings: Settings,
    arguments: Seq<Seq<u8>>,
    at: int,
    debug: Seq<Seq<u8>>,
    count: int,
)
    requires
        0 <= count <= debug.len(),
        0 <= at,
        at + debug.len() <= arguments.len(),
        forall|i: int|
            0 <= i < debug.len() ==> arguments[at + i] == text("--debug=") + lossy(
                #[trigger] debug[i],
            ),
        forall|i: int| 0 <= i < debug.len() ==> names_facets(#[trigger] debug[i]),
        debug.no_duplicates(),
        settings.debug.len() == 0,
        settings.bad is None,
    ensures
        words_read(settings, ArgumentSource::Inherited, arguments, at, true) == words_read(
            (Settings { debug: debug.take(count), ..settings }),
            ArgumentSource::Inherited,
            arguments,
            at + count,
            true,
        ),
    decreases count,
{
    if count > 0 {
        debug_words_are_read(settings, arguments, at, debug, count - 1);
        let before = Settings { debug: debug.take(count - 1), ..settings };
        let named = debug[count - 1];
        a_debug_word_is_read(before, ArgumentSource::Inherited, arguments, at + count - 1, named);
        assert(!before.debug.contains(named)) by {
            if before.debug.contains(named) {
                let i = choose|i: int| 0 <= i < count - 1 && before.debug[i] == named;
                assert(debug[i] == debug[count - 1]);
            }
        }
        assert(debug.take(count - 1).push(named) =~= debug.take(count));
    } else {
        assert(debug.take(0) =~= settings.debug);
    }
}

proof fn evals_are_read(
    settings: Settings,
    arguments: Seq<Seq<u8>>,
    at: int,
    evals: Seq<Seq<u8>>,
    count: int,
)
    requires
        0 <= count <= evals.len(),
        0 <= at,
        at + evals.len() <= arguments.len(),
        forall|i: int|
            0 <= i < evals.len() ==> arguments[at + i] == text("--eval=") + lossy(
                #[trigger] evals[i],
            ),
        forall|i: int|
            0 <= i < evals.len() ==> (#[trigger] evals[i]).len() > 0 && lossy(evals[i])
                == evals[i],
        evals.no_duplicates(),
        settings.evals.len() == 0,
        settings.bad is None,
    ensures
        words_read(settings, ArgumentSource::Inherited, arguments, at, true) == words_read(
            (Settings { evals: evals.take(count), ..settings }),
            ArgumentSource::Inherited,
            arguments,
            at + count,
            true,
        ),
    decreases count,
{
    if count > 0 {
        evals_are_read(settings, arguments, at, evals, count - 1);
        let before = Settings { evals: evals.take(count - 1), ..settings };
        let named = evals[count - 1];
        an_eval_is_read(before, ArgumentSource::Inherited, arguments, at + count - 1, named);
        assert(!before.evals.contains(named)) by {
            if before.evals.contains(named) {
                let i = choose|i: int| 0 <= i < count - 1 && before.evals[i] == named;
                assert(evals[i] == evals[count - 1]);
            }
        }
        assert(evals.take(count - 1).push(named) =~= evals.take(count));
    } else {
        assert(evals.take(0) =~= settings.evals);
    }
}

/// Words of which none occurs twice are their own first ones.
proof fn firsts_of_distinct(list: Seq<Seq<u8>>)
    requires
        list.no_duplicates(),
    ensures
        firsts(list) == list,
    decreases list.len(),
{
    if list.len() > 0 {
        let front = list.drop_last();
        assert(front.no_duplicates()) by {
            assert forall|i: int, j: int|
                0 <= i < front.len() && 0 <= j < front.len() && i != j implies front[i]
                != front[j] by {
                assert(list[i] != list[j]);
            }
        }
        firsts_of_distinct(front);
        if front.contains(list.last()) {
            let i = choose|i: int| 0 <= i < front.len() && front[i] == list.last();
            assert(list[i] == list[list.len() - 1]);
        }
        assert(front.push(list.last()) =~= list);
    } else {
        assert(firsts(list) =~= list);
    }
}

proof fn distinct_behind(option: Seq<u8>, list: Seq<Seq<u8>>)
    requires
        list.no_duplicates(),
        forall|i: int| 0 <= i < list.len() ==> lossy(#[trigger] list[i]) == list[i],
    ensures
        each_behind(option, list).no_duplicates(),
{
    let words = each_behind(option, list);
    assert forall|i: int, j: int|
        0 <= i < words.len() && 0 <= j < words.len() && i != j implies words[i] != words[j] by {
        if words[i] == words[j] {
            assert(words[i].skip(option.len() as int) =~= list[i]);
            assert(words[j].skip(option.len() as int) =~= list[j]);
        }
    }
}

/// The job count a child hears of.
pub open spec fn jobs_heard(jobs: Option<JobLimit>) -> Option<JobLimit> {
    match jobs {
        Some(JobLimit::Auto) => None,
        other => other,
    }
}

/// The load average a child hears of.
pub open spec fn load_heard(parent: Settings) -> Option<(Seq<u8>, bool)> {
    match parent.load {
        Some(load) => if load.1 {
            Some((load_shown(parent.around, load.0), true))
        } else {
            None
        },
        None => None,
    }
}

/// Whether what an invocation asks for can be told a child word by word: its
/// switches are as parsing leaves them, its lists hold text, each entry once and
/// as it is kept, its counts are counts, and its load average and its shuffle
/// are spelled as such.
pub open spec fn tellable(settings: Settings, jobs: Option<JobLimit>) -> bool {
    &&& consistent(settings)
    &&& settings.include_dirs.no_duplicates()
    &&& forall|i: int|
        0 <= i < settings.include_dirs.len() ==> named_as_kept(
            settings.around,
            #[trigger] settings.include_dirs[i],
        )
    &&& settings.debug.no_duplicates()
    &&& forall|i: int|
        0 <= i < settings.debug.len() ==> names_facets(#[trigger] settings.debug[i])
    &&& settings.evals.no_duplicates()
    &&& forall|i: int|
        0 <= i < settings.evals.len() ==> (#[trigger] settings.evals[i]).len() > 0 && lossy(
            settings.evals[i],
        ) == settings.evals[i]
    &&& jobs != Some(JobLimit::Fixed(0))
    &&& settings.load matches Some(load) ==> (load.1 ==> load_shown(
        settings.around,
        load.0,
    ).len() > 0)
    &&& settings.shuffle_spelling == settings.shuffle.spelled()
    &&& spelled_plainly(settings)
}

/// Where the words of the switch table go on behind one that needs none.
spec fn goes_on(words: Seq<Seq<u8>>) -> bool {
    words.len() > 0 ==> words[0].len() > 0 && words[0][0] == 0x2d
}

proof fn dirs_and_jobs_are_read(
    settings: Settings,
    parent: Settings,
    jobs: Option<JobLimit>,
    arguments: Seq<Seq<u8>>,
    at: int,
    rest: Seq<Seq<u8>>,
)
    requires
        left_at(
            arguments,
            at,
            each_behind(text("-I"), parent.include_dirs) + (jobs_word(jobs) + rest),
        ),
        goes_on(rest),
        tellable(parent, jobs),
        settings.around == parent.around,
        settings.include_dirs.len() == 0,
        settings.inherited_jobs is None,
        settings.bad is None,
    ensures
        ({
            let next = at + parent.include_dirs.len() + jobs_word(jobs).len();
            &&& left_at(arguments, next, rest)
            &&& words_read(settings, ArgumentSource::Inherited, arguments, at, true) == words_read(
                (Settings {
                    include_dirs: parent.include_dirs,
                    inherited_jobs: jobs_heard(jobs),
                    ..settings
                }),
                ArgumentSource::Inherited,
                arguments,
                next,
                true,
            )
        }),
{
    let dirs = parent.include_dirs;
    let words = each_behind(text("-I"), dirs);
    left_behind(arguments, at, words, jobs_word(jobs) + rest);
    assert forall|i: int| 0 <= i < dirs.len() implies arguments[at + i] == text("-I") + lossy(
        #[trigger] dirs[i],
    ) by {
        assert(words[i] == arguments[at + i]);
    }
    directories_are_read(settings, arguments, at, dirs, dirs.len() as int);
    assert(dirs.take(dirs.len() as int) =~= dirs);
    let before = Settings { include_dirs: dirs, ..settings };
    let here = at + dirs.len();
    left_behind(arguments, here, jobs_word(jobs), rest);
    assert(text("-j") =~= seq![0x2du8, 0x6au8]) by {
        reveal_strlit("-j");
        is_ascii_spec_bytes("-j");
    }
    match jobs {
        Some(JobLimit::Fixed(count)) => {
            assert(jobs_word(jobs)[0] == arguments[here]);
            a_count_is_read(before, ArgumentSource::Inherited, arguments, here, count);
        },
        Some(JobLimit::Unlimited) => {
            assert(jobs_word(jobs)[0] == arguments[here]);
            assert(seq![0x2du8, 0x6au8] + Seq::<u8>::empty() =~= seq![0x2du8, 0x6au8]);
            if here + 1 < arguments.len() {
                assert(arguments.skip(here + 1)[0] == rest[0]);
            }
            no_count_is_read(before, ArgumentSource::Inherited, arguments, here);
        },
        _ => {},
    }
}

proof fn load_and_sync_are_read(
    settings: Settings,
    parent: Settings,
    jobs: Option<JobLimit>,
    arguments: Seq<Seq<u8>>,
    at: int,
    rest: Seq<Seq<u8>>,
)
    requires
        left_at(arguments, at, load_word(parent) + (sync_word(parent) + rest)),
        tellable(parent, jobs),
        settings.load is None,
        settings.output_sync is None,
        settings.bad is None,
    ensures
        ({
            let next = at + load_word(parent).len() + sync_word(parent).len();
            &&& left_at(arguments, next, rest)
            &&& words_read(settings, ArgumentSource::Inherited, arguments, at, true) == words_read(
                (Settings {
                    load: load_heard(parent),
                    output_sync: parent.output_sync,
                    ..settings
                }),
                ArgumentSource::Inherited,
                arguments,
                next,
                true,
            )
        }),
{
    left_behind(arguments, at, load_word(parent), sync_word(parent) + rest);
    assert(text("-l") =~= seq![0x2du8, 0x6cu8]) by {
        reveal_strlit("-l");
        is_ascii_spec_bytes("-l");
    }
    if let Some(load) = parent.load {
        if load.1 {
            assert(load_word(parent)[0] == arguments[at]);
            a_load_is_read(
                settings,
                ArgumentSource::Inherited,
                arguments,
                at,
                load_shown(parent.around, load.0),
            );
        }
    }
    let before = Settings { load: load_heard(parent), ..settings };
    let here = at + load_word(parent).len();
    left_behind(arguments, here, sync_word(parent), rest);
    if let Some(sync) = parent.output_sync {
        assert(sync_word(parent)[0] == arguments[here]);
        a_kind_is_read(before, ArgumentSource::Inherited, arguments, here, sync);
    }
}

proof fn debugging_is_read(
    settings: Settings,
    parent: Settings,
    jobs: Option<JobLimit>,
    arguments: Seq<Seq<u8>>,
    at: int,
    rest: Seq<Seq<u8>>,
)
    requires
        left_at(arguments, at, firsts(each_behind(text("--debug="), parent.debug)) + rest),
        tellable(parent, jobs),
        settings.debug.len() == 0,
        settings.bad is None,
    ensures
        ({
            let next = at + parent.debug.len();
            &&& left_at(arguments, next, rest)
            &&& firsts(each_behind(text("--debug="), parent.debug)).len() == parent.debug.len()
            &&& words_read(settings, ArgumentSource::Inherited, arguments, at, true) == words_read(
                (Settings { debug: parent.debug, ..settings }),
                ArgumentSource::Inherited,
                arguments,
                next,
                true,
            )
        }),
{
    let debug = parent.debug;
    let words = each_behind(text("--debug="), debug);
    assert forall|i: int| 0 <= i < debug.len() implies lossy(#[trigger] debug[i]) == debug[i] by {
        assert(names_facets(debug[i]));
    }
    distinct_behind(text("--debug="), debug);
    firsts_of_distinct(words);
    left_behind(arguments, at, words, rest);
    assert forall|i: int| 0 <= i < debug.len() implies arguments[at + i] == text("--debug=")
        + lossy(#[trigger] debug[i]) by {
        assert(words[i] == arguments[at + i]);
    }
    debug_words_are_read(settings, arguments, at, debug, debug.len() as int);
    assert(debug.take(debug.len() as int) =~= debug);
}

/// With a switch asked for where it is wanted.
spec fn asking(settings: Settings, wanted: bool, switch: Switch) -> Settings {
    if wanted {
        settings.with(switch)
    } else {
        settings
    }
}

/// With a switch taken back where it is not wanted.
spec fn withdrawing(settings: Settings, unwanted: bool, switch: Switch) -> Settings {
    if unwanted {
        settings.without(switch)
    } else {
        settings
    }
}

proof fn an_asking_word_is_read(
    settings: Settings,
    arguments: Seq<Seq<u8>>,
    at: int,
    rest: Seq<Seq<u8>>,
    wanted: bool,
    word: Seq<u8>,
    switch: Switch,
)
    requires
        left_at(arguments, at, word_where(wanted, word) + rest),
        is_option(word),
        Switch::of_name(word) == Some(switch),
    ensures
        ({
            let next = at + word_where(wanted, word).len();
            &&& left_at(arguments, next, rest)
            &&& words_read(settings, ArgumentSource::Inherited, arguments, at, true) == words_read(
                asking(settings, wanted, switch),
                ArgumentSource::Inherited,
                arguments,
                next,
                true,
            )
        }),
{
    left_behind(arguments, at, word_where(wanted, word), rest);
    if wanted {
        assert(word_where(wanted, word)[0] == arguments[at]);
    }
}

proof fn a_withdrawing_word_is_read(
    settings: Settings,
    arguments: Seq<Seq<u8>>,
    at: int,
    rest: Seq<Seq<u8>>,
    unwanted: bool,
    word: Seq<u8>,
    switch: Switch,
)
    requires
        left_at(arguments, at, word_where(unwanted, word) + rest),
        is_option(word),
        Switch::of_name(word) is None,
        Switch::of_negating_name(word) == Some(switch),
    ensures
        ({
            let next = at + word_where(unwanted, word).len();
            &&& left_at(arguments, next, rest)
            &&& words_read(settings, ArgumentSource::Inherited, arguments, at, true) == words_read(
                withdrawing(settings, unwanted, switch),
                ArgumentSource::Inherited,
                arguments,
                next,
                true,
            )
        }),
{
    left_behind(arguments, at, word_where(unwanted, word), rest);
    if unwanted {
        assert(word_where(unwanted, word)[0] == arguments[at]);
    }
}

/// The word a shuffle is told by names it again.
pub(crate) proof fn a_spelled_shuffle_names_itself(mode: Shuffle, seed: u32)
    ensures
        mode.spelled() matches Some(word) ==> word.len() > 0 && Shuffle::asked(word, seed) == Some(
            mode,
        ),
{
    assert(text("none").len() == 4 && text("none")[0] == 0x6e) by {
        reveal_strlit("none");
        is_ascii_spec_bytes("none");
    }
    assert(text("identity").len() == 8 && text("identity")[0] == 0x69) by {
        reveal_strlit("identity");
        is_ascii_spec_bytes("identity");
    }
    assert(text("reverse").len() == 7 && text("reverse")[0] == 0x72) by {
        reveal_strlit("reverse");
        is_ascii_spec_bytes("reverse");
    }
    assert(text("random").len() == 6 && text("random")[0] == 0x72) by {
        reveal_strlit("random");
        is_ascii_spec_bytes("random");
    }
    if let Shuffle::Seed(value) = mode {
        digits_are_read(value as nat);
        assert(48 <= decimal(value as nat)[0] && decimal(value as nat)[0] <= 57);
    }
}

proof fn the_shuffle_is_read(
    settings: Settings,
    parent: Settings,
    jobs: Option<JobLimit>,
    arguments: Seq<Seq<u8>>,
    at: int,
    rest: Seq<Seq<u8>>,
)
    requires
        left_at(arguments, at, shuffle_word(parent) + rest),
        tellable(parent, jobs),
        settings.shuffle == Shuffle::Unshuffled,
        settings.shuffle_spelling is None,
        settings.bad is None,
    ensures
        ({
            let next = at + shuffle_word(parent).len();
            &&& left_at(arguments, next, rest)
            &&& words_read(settings, ArgumentSource::Inherited, arguments, at, true) == words_read(
                (Settings {
                    shuffle: parent.shuffle,
                    shuffle_spelling: parent.shuffle_spelling,
                    ..settings
                }),
                ArgumentSource::Inherited,
                arguments,
                next,
                true,
            )
        }),
{
    left_behind(arguments, at, shuffle_word(parent), rest);
    a_spelled_shuffle_names_itself(parent.shuffle, settings.around.seed);
    if let Some(word) = parent.shuffle_spelling {
        assert(shuffle_word(parent)[0] == arguments[at]);
        a_shuffle_is_read(settings, arguments, at, word, parent.shuffle);
    }
}

/// What follows the switch table among the words a child is handed.
spec fn tail_of(parent: Settings) -> Seq<Seq<u8>> {
    let overrides = assignment_words(parent.variables);
    if overrides.len() > 0 {
        seq![text("--")] + overrides
    } else {
        Seq::empty()
    }
}

spec fn from_evals(parent: Settings) -> Seq<Seq<u8>> {
    each_behind(text("--eval="), parent.evals) + tail_of(parent)
}

spec fn from_switches(parent: Settings) -> Seq<Seq<u8>> {
    word_where(parent.given.contains(Switch::Trace), text("--trace")) + (word_where(
        parent.given.contains(Switch::WarnUndefinedVariables),
        text("--warn-undefined-variables"),
    ) + (word_where(
        parent.refused.contains(Switch::PrintDirectory),
        text("--no-print-directory"),
    ) + (word_where(parent.refused.contains(Switch::Silent), text("--no-silent")) + (shuffle_word(
        parent,
    ) + from_evals(parent)))))
}

spec fn from_load(parent: Settings) -> Seq<Seq<u8>> {
    load_word(parent) + (sync_word(parent) + (firsts(
        each_behind(text("--debug="), parent.debug),
    ) + from_switches(parent)))
}

proof fn words_in_turn(parent: Settings, jobs: Option<JobLimit>)
    ensures
        words_behind(parent, jobs) == each_behind(text("-I"), parent.include_dirs) + (jobs_word(
            jobs,
        ) + from_load(parent)),
{
    let dirs = each_behind(text("-I"), parent.include_dirs);
    let debugging = firsts(each_behind(text("--debug="), parent.debug));
    let traced = word_where(parent.given.contains(Switch::Trace), text("--trace"));
    let warned = word_where(
        parent.given.contains(Switch::WarnUndefinedVariables),
        text("--warn-undefined-variables"),
    );
    let unprinted = word_where(
        parent.refused.contains(Switch::PrintDirectory),
        text("--no-print-directory"),
    );
    let unsilenced = word_where(parent.refused.contains(Switch::Silent), text("--no-silent"));
    let evals = each_behind(text("--eval="), parent.evals);
    let first = dirs + jobs_word(jobs);
    let second = first + load_word(parent);
    let third = second + sync_word(parent);
    let fourth = third + debugging;
    let fifth = fourth + traced;
    let sixth = fifth + warned;
    let seventh = sixth + unprinted;
    let eighth = seventh + unsilenced;
    let shuffled = shuffle_word(parent) + from_evals(parent);
    regrouped(eighth + shuffle_word(parent), evals, tail_of(parent));
    regrouped(eighth, shuffle_word(parent), from_evals(parent));
    regrouped(seventh, unsilenced, shuffled);
    regrouped(sixth, unprinted, unsilenced + shuffled);
    regrouped(fifth, warned, unprinted + (unsilenced + shuffled));
    regrouped(fourth, traced, warned + (unprinted + (unsilenced + shuffled)));
    regrouped(third, debugging, from_switches(parent));
    regrouped(second, sync_word(parent), debugging + from_switches(parent));
    regrouped(
        first,
        load_word(parent),
        sync_word(parent) + (debugging + from_switches(parent)),
    );
    regrouped(dirs, jobs_word(jobs), from_load(parent));
}

proof fn regrouped(first: Seq<Seq<u8>>, second: Seq<Seq<u8>>, third: Seq<Seq<u8>>)
    ensures
        (first + second) + third == first + (second + third),
{
    assert((first + second) + third =~= first + (second + third));
}

proof fn the_words_go_on(parent: Settings, jobs: Option<JobLimit>)
    ensures
        goes_on(from_load(parent)),
{
    words_in_turn(parent, jobs);
    the_table_is_dashed(parent, jobs);
    first_bytes();
    option_bytes();
    let evals = each_behind(text("--eval="), parent.evals);
    dashed_apart(table_words(parent, jobs), evals);
    let options = table_words(parent, jobs) + evals;
    let words = words_behind(parent, jobs);
    let at = parent.include_dirs.len() + jobs_word(jobs).len();
    if from_load(parent).len() > 0 {
        assert(words[at as int] == from_load(parent)[0]);
        if at < options.len() {
            assert(words[at as int] == options[at as int]);
        } else {
            assert(options.len() == at) by {
                assert(words.len() == at + from_load(parent).len());
                assert(options.len() <= at);
                assert(options.len() >= at) by {
                    assert(table_words(parent, jobs).len() >= parent.include_dirs.len()
                        + jobs_word(jobs).len());
                }
            }
            assert(words[at as int] == text("--"));
        }
    }
}

/// The switches a child hears of are those its parent was asked for and had
/// taken back.
proof fn switches_are_heard(settings: Settings, parent: Settings)
    requires
        consistent(parent),
        settings.given == Set::<Switch>::empty(),
        settings.refused == Set::<Switch>::empty(),
    ensures
        ({
            let grouped = told(settings, parent, 13);
            let traced = asking(grouped, parent.given.contains(Switch::Trace), Switch::Trace);
            let warned = asking(
                traced,
                parent.given.contains(Switch::WarnUndefinedVariables),
                Switch::WarnUndefinedVariables,
            );
            let unprinted = withdrawing(
                warned,
                parent.refused.contains(Switch::PrintDirectory),
                Switch::PrintDirectory,
            );
            let heard = withdrawing(
                unprinted,
                parent.refused.contains(Switch::Silent),
                Switch::Silent,
            );
            heard == (Settings { given: parent.given, refused: parent.refused, ..settings })
        }),
{
    letters_tell(settings, parent, 13);
    let grouped = told(settings, parent, 13);
    let traced = asking(grouped, parent.given.contains(Switch::Trace), Switch::Trace);
    let warned = asking(
        traced,
        parent.given.contains(Switch::WarnUndefinedVariables),
        Switch::WarnUndefinedVariables,
    );
    let unprinted = withdrawing(
        warned,
        parent.refused.contains(Switch::PrintDirectory),
        Switch::PrintDirectory,
    );
    let heard = withdrawing(
        unprinted,
        parent.refused.contains(Switch::Silent),
        Switch::Silent,
    );
    assert forall|switch: Switch| heard.given.contains(switch) == parent.given.contains(
        switch,
    ) by {
        assert(grouped.given.contains(switch) <==> parent.given.contains(switch) && place(switch)
            < 13);
        assert(!(parent.given.contains(Switch::PrintDirectory) && parent.refused.contains(
            Switch::PrintDirectory,
        )));
        assert(!(parent.given.contains(Switch::Silent) && parent.refused.contains(
            Switch::Silent,
        )));
    }
    assert(heard.given =~= parent.given);
    assert forall|switch: Switch| heard.refused.contains(switch) == parent.refused.contains(
        switch,
    ) by {
        assert(grouped.refused.contains(switch) <==> switch == Switch::KeepGoing
            && parent.refused.contains(switch));
    }
    assert(heard.refused =~= parent.refused);
}

/// A group nothing is spoken in leaves an invocation as it was.
proof fn a_silent_group_tells_nothing(settings: Settings, parent: Settings, count: int)
    requires
        letters(parent, count).len() == 0,
    ensures
        told(settings, parent, count) == settings,
    decreases count,
{
    if count > 0 {
        a_silent_group_tells_nothing(settings, parent, count - 1);
    }
}

/// What a child that was told nothing else hears of an invocation: its
/// switches, its lists and its assignments, and nothing of its own goals,
/// directories, makefiles and files taken for new or old.
pub open spec fn heard(parent: Settings, jobs: Option<JobLimit>) -> Settings {
    Settings {
        include_dirs: parent.include_dirs,
        variables: assignment_words(parent.variables),
        evals: parent.evals,
        debug: parent.debug,
        shuffle: parent.shuffle,
        shuffle_spelling: parent.shuffle_spelling,
        inherited_jobs: jobs_heard(jobs),
        load: load_heard(parent),
        given: parent.given,
        refused: parent.refused,
        output_sync: parent.output_sync,
        ..nothing_asked(parent.around)
    }
}

proof fn letters_are_letters(parent: Settings, count: int)
    ensures
        forall|i: int|
            0 <= i < letters(parent, count).len() ==> (#[trigger] letters(parent, count)[i])
                != 0x2d && letters(parent, count)[i] != 0x3d,
        letters(parent, count).len() > 0 ==> letters(parent, count)[0] != 0x76,
    decreases count,
{
    if count > 0 {
        letters_are_letters(parent, count - 1);
    }
}

/// What is handed on, as a command line: the letter group behind a dash, and
/// every other word as it is.
proof fn handed_arguments(parent: Settings, jobs: Option<JobLimit>)
    ensures
        ({
            let group_letters = letters(parent, 13);
            let front = seq![text("make")] + word_where(
                group_letters.len() > 0,
                seq![0x2du8] + group_letters,
            );
            arguments_of(handed(parent, jobs)) == front + words_behind(parent, jobs)
        }),
{
    let group_letters = letters(parent, 13);
    let front = seq![text("make")] + word_where(
        group_letters.len() > 0,
        seq![0x2du8] + group_letters,
    );
    let words = words_behind(parent, jobs);
    let all = handed(parent, jobs);
    letters_are_letters(parent, 13);
    assert(text("-") =~= seq![0x2du8]) by {
        reveal_strlit("-");
        is_ascii_spec_bytes("-");
    }
    option_bytes();
    first_bytes();
    if group_letters.len() > 0 {
        assert(all[0] == group_letters);
        assert(group_letters[0] != 0x2d);
        assert(!group_letters.contains(0x3d));
        assert(argument_of(all[0], 0) == seq![0x2du8] + group_letters);
        assert(arguments_of(all) =~= front + words);
    } else {
        assert(all =~= words);
        if words.len() > 0 {
            the_table_is_dashed(parent, jobs);
            let evals = each_behind(text("--eval="), parent.evals);
            dashed_apart(table_words(parent, jobs), evals);
            let options = table_words(parent, jobs) + evals;
            if options.len() > 0 {
                assert(words[0] == options[0]);
            } else {
                assert(words[0] == text("--"));
            }
            assert(argument_of(all[0], 0) == all[0]);
        }
        assert(front =~= seq![text("make")]);
        assert(arguments_of(all) =~= front + words);
    }
}

proof fn the_letters_are_read(
    settings: Settings,
    parent: Settings,
    arguments: Seq<Seq<u8>>,
    words: Seq<Seq<u8>>,
)
    requires
        left_at(
            arguments,
            1,
            word_where(letters(parent, 13).len() > 0, seq![0x2du8] + letters(parent, 13)) + words,
        ),
        settings.given == Set::<Switch>::empty(),
        settings.refused == Set::<Switch>::empty(),
        settings.bad is None,
        consistent(parent),
    ensures
        ({
            let next = 1 + word_where(
                letters(parent, 13).len() > 0,
                seq![0x2du8] + letters(parent, 13),
            ).len();
            &&& left_at(arguments, next as int, words)
            &&& words_read(settings, ArgumentSource::Inherited, arguments, 1, true) == words_read(
                told(settings, parent, 13),
                ArgumentSource::Inherited,
                arguments,
                next as int,
                true,
            )
        }),
{
    let group_letters = letters(parent, 13);
    let front = word_where(group_letters.len() > 0, seq![0x2du8] + group_letters);
    left_behind(arguments, 1, front, words);
    letters_tell(settings, parent, 13);
    if group_letters.len() > 0 {
        assert(front[0] == arguments[1]);
        letters_are_letters(parent, 13);
        assert(arguments[1][1] == group_letters[0]);
        the_group_is_read(settings, parent, arguments, 1, 13);
        a_cluster_is_read(
            settings,
            ArgumentSource::Inherited,
            arguments,
            1,
            told(settings, parent, 13),
        );
    } else {
        a_silent_group_tells_nothing(settings, parent, 13);
    }
}

/// The long switches and the shuffle, read one behind the other.
proof fn long_switches_are_read(
    settings: Settings,
    parent: Settings,
    jobs: Option<JobLimit>,
    arguments: Seq<Seq<u8>>,
    at: int,
) -> (next: int)
    requires
        left_at(arguments, at, from_switches(parent)),
        tellable(parent, jobs),
        settings.shuffle == Shuffle::Unshuffled,
        settings.shuffle_spelling is None,
        settings.bad is None,
    ensures
        left_at(arguments, next, from_evals(parent)),
        ({
            let traced = asking(settings, parent.given.contains(Switch::Trace), Switch::Trace);
            let warned = asking(
                traced,
                parent.given.contains(Switch::WarnUndefinedVariables),
                Switch::WarnUndefinedVariables,
            );
            let unprinted = withdrawing(
                warned,
                parent.refused.contains(Switch::PrintDirectory),
                Switch::PrintDirectory,
            );
            let switched = withdrawing(
                unprinted,
                parent.refused.contains(Switch::Silent),
                Switch::Silent,
            );
            words_read(settings, ArgumentSource::Inherited, arguments, at, true) == words_read(
                (Settings {
                    shuffle: parent.shuffle,
                    shuffle_spelling: parent.shuffle_spelling,
                    ..switched
                }),
                ArgumentSource::Inherited,
                arguments,
                next,
                true,
            )
        }),
{
    switch_names();
    taken_back_names();
    assert(is_option(text("--trace")) && is_option(text("--warn-undefined-variables"))) by {
        more_asked_for_bytes();
        switches_open_with_a_dash();
        a_long_word(text("--trace"));
        a_long_word(text("--warn-undefined-variables"));
    }
    assert(is_option(text("--no-print-directory")) && is_option(text("--no-silent"))) by {
        taken_back_bytes();
        switches_open_with_a_dash();
        a_long_word(text("--no-print-directory"));
        a_long_word(text("--no-silent"));
    }
    let tracing = parent.given.contains(Switch::Trace);
    let warning = parent.given.contains(Switch::WarnUndefinedVariables);
    let unprinting = parent.refused.contains(Switch::PrintDirectory);
    let unsilencing = parent.refused.contains(Switch::Silent);
    let shuffled = shuffle_word(parent) + from_evals(parent);
    let from_silent = word_where(unsilencing, text("--no-silent")) + shuffled;
    let from_print = word_where(unprinting, text("--no-print-directory")) + from_silent;
    let from_warning = word_where(warning, text("--warn-undefined-variables")) + from_print;
    let traced = asking(settings, tracing, Switch::Trace);
    an_asking_word_is_read(
        settings,
        arguments,
        at,
        from_warning,
        tracing,
        text("--trace"),
        Switch::Trace,
    );
    let second = at + word_where(tracing, text("--trace")).len();
    let warned = asking(traced, warning, Switch::WarnUndefinedVariables);
    an_asking_word_is_read(
        traced,
        arguments,
        second,
        from_print,
        warning,
        text("--warn-undefined-variables"),
        Switch::WarnUndefinedVariables,
    );
    let third = second + word_where(warning, text("--warn-undefined-variables")).len();
    let unprinted = withdrawing(warned, unprinting, Switch::PrintDirectory);
    a_withdrawing_word_is_read(
        warned,
        arguments,
        third,
        from_silent,
        unprinting,
        text("--no-print-directory"),
        Switch::PrintDirectory,
    );
    let fourth = third + word_where(unprinting, text("--no-print-directory")).len();
    let switched = withdrawing(unprinted, unsilencing, Switch::Silent);
    a_withdrawing_word_is_read(
        unprinted,
        arguments,
        fourth,
        shuffled,
        unsilencing,
        text("--no-silent"),
        Switch::Silent,
    );
    let fifth = fourth + word_where(unsilencing, text("--no-silent")).len();
    the_shuffle_is_read(switched, parent, jobs, arguments, fifth, from_evals(parent));
    fifth + shuffle_word(parent).len()
}

/// The statements and the assignments, read to the end.
proof fn the_end_of_the_words_is_read(
    settings: Settings,
    parent: Settings,
    jobs: Option<JobLimit>,
    arguments: Seq<Seq<u8>>,
    at: int,
)
    requires
        left_at(arguments, at, from_evals(parent)),
        tellable(parent, jobs),
        settings.evals.len() == 0,
        settings.variables.len() == 0,
        settings.bad is None,
    ensures
        words_read(settings, ArgumentSource::Inherited, arguments, at, true) == (
            (Settings {
                evals: parent.evals,
                variables: assignment_words(parent.variables),
                ..settings
            }),
            None::<Reported>,
        ),
{
    let evals = parent.evals;
    let words = each_behind(text("--eval="), evals);
    left_behind(arguments, at, words, tail_of(parent));
    assert forall|i: int| 0 <= i < evals.len() implies arguments[at + i] == text("--eval=") + lossy(
        #[trigger] evals[i],
    ) by {
        assert(words[i] == arguments[at + i]);
    }
    evals_are_read(settings, arguments, at, evals, evals.len() as int);
    assert(evals.take(evals.len() as int) =~= evals);
    let before = Settings { evals, ..settings };
    let here = at + evals.len();
    let overrides = assignment_words(parent.variables);
    if overrides.len() > 0 {
        left_behind(arguments, here, seq![text("--")], overrides);
        assert(seq![text("--")][0] == arguments[here + 0]);
        the_end_is_read(before, ArgumentSource::Inherited, arguments, here);
        assert forall|i: int| here + 1 <= i < arguments.len() implies (
        #[trigger] arguments[i]).contains(0x3d) by {
            assert(arguments.skip(here + 1)[i - here - 1] == overrides[i - here - 1]);
            an_assignment_is_a_word(
                parent.variables,
                assigned(parent.variables).len() - 1 - (i - here - 1),
            );
        }
        assignments_are_read(before, ArgumentSource::Inherited, arguments, here + 1);
        assert(before.variables + arguments.skip(here + 1) =~= overrides);
    } else {
        assert(before.variables =~= overrides);
    }
}

/// What an invocation publishes in `MAKEFLAGS`, a child reads back: the same
/// switches asked for and taken back, the same directories, statements,
/// `--debug` arguments, output synchronisation and shuffle, the job count and
/// the load average it was published under, and each assignment that stood at
/// the end, with no complaint and no refusal.
pub proof fn a_child_hears_its_parent(parent: Settings, jobs: Option<JobLimit>)
    requires
        tellable(parent, jobs),
    ensures
        words_read(
            nothing_asked(parent.around),
            ArgumentSource::Inherited,
            arguments_of(words_in(published(parent, jobs).makeflags, true)),
            1,
            true,
        ) == (heard(parent, jobs), None::<Reported>),
{
    let settings = nothing_asked(parent.around);
    let source = ArgumentSource::Inherited;
    what_is_published_is_split_back(parent, jobs);
    let arguments = arguments_of(handed(parent, jobs));
    handed_arguments(parent, jobs);
    let words = words_behind(parent, jobs);
    let group_letters = letters(parent, 13);
    let front = word_where(group_letters.len() > 0, seq![0x2du8] + group_letters);
    assert(arguments.skip(1) =~= front + words);
    the_letters_are_read(settings, parent, arguments, words);
    letters_tell(settings, parent, 13);
    let grouped = told(settings, parent, 13);
    let second = 1 + front.len() as int;
    words_in_turn(parent, jobs);
    the_words_go_on(parent, jobs);
    dirs_and_jobs_are_read(grouped, parent, jobs, arguments, second, from_load(parent));
    let counted = Settings {
        include_dirs: parent.include_dirs,
        inherited_jobs: jobs_heard(jobs),
        ..grouped
    };
    let third = second + parent.include_dirs.len() + jobs_word(jobs).len();
    let debugging = firsts(each_behind(text("--debug="), parent.debug));
    load_and_sync_are_read(
        counted,
        parent,
        jobs,
        arguments,
        third,
        debugging + from_switches(parent),
    );
    let synced = Settings {
        load: load_heard(parent),
        output_sync: parent.output_sync,
        ..counted
    };
    let fourth = third + load_word(parent).len() + sync_word(parent).len();
    debugging_is_read(synced, parent, jobs, arguments, fourth, from_switches(parent));
    let debugged = Settings { debug: parent.debug, ..synced };
    let fifth = fourth + parent.debug.len();
    let sixth = long_switches_are_read(debugged, parent, jobs, arguments, fifth);
    switches_are_heard(settings, parent);
    let switched = Settings {
        given: parent.given,
        refused: parent.refused,
        shuffle: parent.shuffle,
        shuffle_spelling: parent.shuffle_spelling,
        ..debugged
    };
    the_end_of_the_words_is_read(switched, parent, jobs, arguments, sixth);
}

proof fn switching_keeps_consistent(settings: Settings, switch: Switch)
    requires
        consistent(settings),
    ensures
        consistent(settings.with(switch)),
        switch == Switch::KeepGoing || switch == Switch::PrintDirectory || switch == Switch::Silent
            ==> consistent(settings.without(switch)),
{
    let asked = settings.with(switch);
    assert forall|other: Switch|
        !(#[trigger] asked.given.contains(other) && asked.refused.contains(other)) by {
        assert(!(settings.given.contains(other) && settings.refused.contains(other)));
    }
    let refused = settings.without(switch);
    assert forall|other: Switch|
        !(#[trigger] refused.given.contains(other) && refused.refused.contains(other)) by {
        assert(!(settings.given.contains(other) && settings.refused.contains(other)));
    }
}

proof fn a_cluster_keeps_consistent(
    settings: Settings,
    source: ArgumentSource,
    argument: Seq<u8>,
    arguments: Seq<Seq<u8>>,
    at: int,
    short: int,
)
    requires
        consistent(settings),
    ensures
        consistent(cluster_read(settings, source, argument, arguments, at, short).settings),
    decreases argument.len() - short,
{
    if 0 <= short < argument.len() {
        let option = argument[short];
        let rest = argument.skip(short + 1);
        if let Some(switch) = Switch::of_letter(option) {
            switching_keeps_consistent(settings, switch);
            a_cluster_keeps_consistent(
                settings.with(switch),
                source,
                argument,
                arguments,
                at,
                short + 1,
            );
        } else if let Some(switch) = Switch::of_negating_letter(option) {
            switching_keeps_consistent(settings, switch);
            a_cluster_keeps_consistent(
                settings.without(switch),
                source,
                argument,
                arguments,
                at,
                short + 1,
            );
        } else {
            a_cluster_keeps_consistent(settings, source, argument, arguments, at, short + 1);
            assert(consistent(
                ignored_letter_read(settings, source, option, rest, arguments, at).settings,
            )) by {
                reveal(ignored_letter_read);
            }
        }
    }
}

proof fn an_option_keeps_consistent(
    settings: Settings,
    source: ArgumentSource,
    arguments: Seq<Seq<u8>>,
    at: int,
)
    requires
        consistent(settings),
    ensures
        consistent(option_read(settings, source, arguments, at).settings),
{
    let word = arguments[at];
    a_cluster_keeps_consistent(settings, source, word, arguments, at, 1);
    assert(consistent(other_long_read(settings, source, word, arguments, at).settings)) by {
        reveal(other_long_read);
        assert(attached_read(settings, source, word, arguments, at) matches Some(read)
            ==> consistent(read.settings)) by {
            reveal(attached_read);
        }
        if let Some(found) = ignored_long(word, 0, 0) {
            assert(consistent(ignored_read(settings, source, found, arguments, at).settings)) by {
                reveal(ignored_read);
            }
        }
    }
    assert(consistent(separated_read(settings, source, word, arguments, at).settings)) by {
        reveal(separated_read);
    }
    assert(consistent(style_read(settings, source, word, arguments, at).settings)) by {
        reveal(style_read);
    }
    assert(forall|spec: Seq<u8>| consistent(#[trigger] shuffle_read(settings, source, spec).0)) by {
        reveal(shuffle_read);
    }
    reveal(option_read);
}

/// Whatever words are read, no switch is left both asked for and taken back,
/// only those are taken back that can be, and the built-in rules are gone where
/// the built-in variables are.
pub proof fn reading_keeps_the_switches_consistent(
    settings: Settings,
    source: ArgumentSource,
    arguments: Seq<Seq<u8>>,
    at: int,
    options: bool,
)
    requires
        consistent(settings),
    ensures
        consistent(words_read(settings, source, arguments, at, options).0),
    decreases arguments.len() + 1 - at,
{
    if 0 <= at < arguments.len() {
        let word = arguments[at];
        if !options || !is_option(word) {
            reading_keeps_the_switches_consistent(
                word_read(settings, word),
                source,
                arguments,
                at + 1,
                options,
            );
        } else if let Some(switch) = Switch::of_name(word) {
            switching_keeps_consistent(settings, switch);
            reading_keeps_the_switches_consistent(
                settings.with(switch),
                source,
                arguments,
                at + 1,
                options,
            );
        } else if let Some(switch) = Switch::of_negating_name(word) {
            switching_keeps_consistent(settings, switch);
            reading_keeps_the_switches_consistent(
                settings.without(switch),
                source,
                arguments,
                at + 1,
                options,
            );
        } else {
            let read = option_read(settings, source, arguments, at);
            an_option_keeps_consistent(settings, source, arguments, at);
            option_moves(settings, source, arguments, at);
            if read.said is None && read.settings.bad is None {
                reading_keeps_the_switches_consistent(
                    read.settings,
                    source,
                    arguments,
                    read.at + 1,
                    word != text("--"),
                );
            }
        }
    }
}

proof fn asked_for_dashes()
    ensures
        text("--always-make")[0] == 0x2d,
        text("--dry-run")[0] == 0x2d,
        text("--just-print")[0] == 0x2d,
        text("--recon")[0] == 0x2d,
        text("--environment-overrides")[0] == 0x2d,
        text("--ignore-errors")[0] == 0x2d,
        text("--keep-going")[0] == 0x2d,
        text("--no-builtin-rules")[0] == 0x2d,
{
    assert(text("--always-make")[0] == 0x2d) by {
        reveal_strlit("--always-make");
        is_ascii_spec_bytes("--always-make");
    }
    assert(text("--dry-run")[0] == 0x2d) by {
        reveal_strlit("--dry-run");
        is_ascii_spec_bytes("--dry-run");
    }
    assert(text("--just-print")[0] == 0x2d) by {
        reveal_strlit("--just-print");
        is_ascii_spec_bytes("--just-print");
    }
    assert(text("--recon")[0] == 0x2d) by {
        reveal_strlit("--recon");
        is_ascii_spec_bytes("--recon");
    }
    assert(text("--environment-overrides")[0] == 0x2d) by {
        reveal_strlit("--environment-overrides");
        is_ascii_spec_bytes("--environment-overrides");
    }
    assert(text("--ignore-errors")[0] == 0x2d) by {
        reveal_strlit("--ignore-errors");
        is_ascii_spec_bytes("--ignore-errors");
    }
    assert(text("--keep-going")[0] == 0x2d) by {
        reveal_strlit("--keep-going");
        is_ascii_spec_bytes("--keep-going");
    }
    assert(text("--no-builtin-rules")[0] == 0x2d) by {
        reveal_strlit("--no-builtin-rules");
        is_ascii_spec_bytes("--no-builtin-rules");
    }
}

proof fn more_asked_for_dashes()
    ensures
        text("--no-builtin-variables")[0] == 0x2d,
        text("--print-directory")[0] == 0x2d,
        text("--question")[0] == 0x2d,
        text("--silent")[0] == 0x2d,
        text("--quiet")[0] == 0x2d,
        text("--touch")[0] == 0x2d,
        text("--trace")[0] == 0x2d,
        text("--warn-undefined-variables")[0] == 0x2d,
{
    assert(text("--no-builtin-variables")[0] == 0x2d) by {
        reveal_strlit("--no-builtin-variables");
        is_ascii_spec_bytes("--no-builtin-variables");
    }
    assert(text("--print-directory")[0] == 0x2d) by {
        reveal_strlit("--print-directory");
        is_ascii_spec_bytes("--print-directory");
    }
    assert(text("--question")[0] == 0x2d) by {
        reveal_strlit("--question");
        is_ascii_spec_bytes("--question");
    }
    assert(text("--silent")[0] == 0x2d) by {
        reveal_strlit("--silent");
        is_ascii_spec_bytes("--silent");
    }
    assert(text("--quiet")[0] == 0x2d) by {
        reveal_strlit("--quiet");
        is_ascii_spec_bytes("--quiet");
    }
    assert(text("--touch")[0] == 0x2d) by {
        reveal_strlit("--touch");
        is_ascii_spec_bytes("--touch");
    }
    assert(text("--trace")[0] == 0x2d) by {
        reveal_strlit("--trace");
        is_ascii_spec_bytes("--trace");
    }
    assert(text("--warn-undefined-variables")[0] == 0x2d) by {
        reveal_strlit("--warn-undefined-variables");
        is_ascii_spec_bytes("--warn-undefined-variables");
    }
}

/// A letter and a long name that name one switch, each told apart from every
/// other.
pub(crate) proof fn a_pair_is_one_switch(letter: u8, name: Seq<u8>)
    requires
        paired(letter, name),
    ensures
        Switch::of_letter(letter) is Some,
        Switch::of_name(name) == Switch::of_letter(letter),
        Switch::of_letter(letter) == Some(Switch::NoBuiltinVariables) <==> letter == 0x52,
{
    asked_for_bytes();
    more_asked_for_bytes();
}

/// A switch is read alike off its letter and off its long name.
pub(crate) proof fn a_switch_is_read(program: Seq<u8>, letter: u8, name: Seq<u8>, around: Around)
    requires
        Switch::of_letter(letter) is Some,
        Switch::of_name(name) == Switch::of_letter(letter),
    ensures
        ({
            let asked = Asked::Execute(asked_for(around, Switch::of_letter(letter)->0));
            &&& parsed(seq![program, seq![0x2du8, letter]], None, None, around) == asked
            &&& parsed(seq![program, name], None, None, around) == asked
        }),
{
    let switch = Switch::of_letter(letter)->0;
    let source = ArgumentSource::CommandLine;
    let start = nothing_asked(around);
    let after = start.with(switch);
    let short = seq![program, seq![0x2du8, letter]];
    let word = short[1];
    assert(cluster_read(start, source, word, short, 1, 1) == read_on(after, 1)) by {
        assert(word[1] == letter);
        assert(cluster_read(after, source, word, short, 1, 2) == read_on(after, 1));
    }
    a_cluster_is_read(start, source, short, 1, after);
    let long = seq![program, name];
    assert(name.len() > 1 && name[0] == 0x2d) by {
        asked_for_bytes();
        more_asked_for_bytes();
        asked_for_dashes();
        more_asked_for_dashes();
    }
    a_long_word(name);
    assert(long[1] == name);
    assert(words_read(start, source, long, 1, true) == words_read(after, source, long, 2, true));
}

} // verus!
