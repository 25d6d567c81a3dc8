//! Structural laws of the token sequence.
//!
//! The central fact: token spans partition the input.  Spans are nonempty,
//! ordered and non-overlapping, and every region the spans leave uncovered
//! consists only of skipped whitespace and line comments, so concatenating
//! the span substrings together with the skipped regions reconstructs the
//! input exactly.

use vstd::prelude::*;
use crate::token::SpecToken;
use crate::model::{
    is_space_char, is_alpha_char, at_comment, skip_line, ident_end, punct_token, error_token,
    ident_token, string_token, string_resume, spec_tokens, lemma_skip_line_bounds,
    lemma_ident_end_bounds, lemma_string_resume_bounds,
};
use crate::token::TokenKind;

verus! {

/// `[i, j)` holds only material the scanner skips: whitespace characters and
/// line comments.
pub open spec fn skipped_region(s: Seq<char>, i: int, j: int) -> bool
    decreases j - i
        via skipped_region_decreases
{
    if i >= j {
        true
    } else if is_space_char(s[i]) {
        skipped_region(s, i + 1, j)
    } else if at_comment(s, i) && skip_line(s, i) <= j {
        skipped_region(s, skip_line(s, i), j)
    } else {
        false
    }
}

#[via_fn]
proof fn skipped_region_decreases(s: Seq<char>, i: int, j: int) {
    if i < j && !is_space_char(s[i]) && at_comment(s, i) && skip_line(s, i) <= j {
        lemma_skip_line_bounds(s, i);
    }
}

/// The spans of `toks` partition `[pos, s.len())`: each span is a nonempty
/// range inside the input, consecutive spans do not overlap and appear in
/// source order, and the regions between them (and before the first and
/// after the last) hold only skipped whitespace and comments.
pub open spec fn spans_partition(s: Seq<char>, pos: int, toks: Seq<SpecToken>) -> bool {
    &&& forall|k: int|
        0 <= k < toks.len() ==> pos <= (#[trigger] toks[k]).span.start < toks[k].span.end
            <= s.len()
    &&& forall|k: int, l: int|
        0 <= k && k + 1 == l && l < toks.len() ==> (#[trigger] toks[k]).span.end <= (
        #[trigger] toks[l]).span.start
    &&& (toks.len() == 0 ==> skipped_region(s, pos, s.len() as int))
    &&& (toks.len() > 0 ==> skipped_region(s, pos, toks[0].span.start))
    &&& (toks.len() > 0 ==> skipped_region(
        s,
        toks[toks.len() - 1].span.end,
        s.len() as int,
    ))
    &&& forall|k: int, l: int|
        0 <= k && k + 1 == l && l < toks.len() ==> skipped_region(
            s,
            (#[trigger] toks[k]).span.end,
            (#[trigger] toks[l]).span.start,
        )
}

/// Prepending one token whose span ends exactly where the remaining tokens
/// are scanned from preserves the partition.
#[verifier::rlimit(50)]
proof fn lemma_partition_step(s: Seq<char>, pos: int, t: SpecToken, next: int)
    requires
        0 <= pos <= s.len(),
        t.span.start == pos,
        pos < t.span.end,
        t.span.end == next,
        next <= s.len(),
        spans_partition(s, next, spec_tokens(s, next)),
    ensures
        spans_partition(s, pos, seq![t] + spec_tokens(s, next)),
{
    let rest = spec_tokens(s, next);
    let toks = seq![t] + rest;
    assert(toks[0] == t);
    assert(forall|k: int| 0 <= k < rest.len() ==> toks[k + 1] == rest[k]);
    assert(skipped_region(s, pos, pos));
    assert forall|k: int| 0 <= k < toks.len() implies pos <= (#[trigger] toks[k]).span.start
        < toks[k].span.end <= s.len() by {
        if k >= 1 {
            assert(toks[k] == rest[k - 1]);
        }
    }
    assert forall|k: int, l: int| 0 <= k && k + 1 == l && l < toks.len() implies (
    #[trigger] toks[k]).span.end <= (#[trigger] toks[l]).span.start by {
        if k >= 1 {
            assert(toks[k] == rest[k - 1]);
        }
        assert(toks[l] == rest[l - 1]);
    }
    assert forall|k: int, l: int| 0 <= k && k + 1 == l && l < toks.len() implies skipped_region(
        s,
        (#[trigger] toks[k]).span.end,
        (#[trigger] toks[l]).span.start,
    ) by {
        if k >= 1 {
            assert(toks[k] == rest[k - 1]);
        }
        assert(toks[l] == rest[l - 1]);
    }
    if rest.len() == 0 {
        assert(toks[toks.len() - 1] == t);
    } else {
        assert(toks[toks.len() - 1] == rest[rest.len() - 1]);
    }
}

/// The spans of the tokens scanned from any position partition the rest of
/// the input: concatenating each token's span substring plus the skipped
/// whitespace and comment regions reconstructs the input, with no gaps
/// besides the skipped regions and no overlaps.
pub proof fn lemma_tokens_partition(s: Seq<char>, pos: int)
    requires
        0 <= pos <= s.len(),
    ensures
        spans_partition(s, pos, spec_tokens(s, pos)),
    decreases s.len() - pos,
{
    let toks = spec_tokens(s, pos);
    if pos >= s.len() {
        assert(skipped_region(s, pos, s.len() as int));
    } else if is_space_char(s[pos]) {
        lemma_tokens_partition(s, pos + 1);
        let rest = spec_tokens(s, pos + 1);
        assert(toks == rest);
        if rest.len() == 0 {
            assert(skipped_region(s, pos, s.len() as int));
        } else {
            assert(skipped_region(s, pos, rest[0].span.start));
        }
    } else if s[pos] == '(' {
        lemma_tokens_partition(s, pos + 1);
        lemma_partition_step(s, pos, punct_token(TokenKind::LeftParen, s, pos), pos + 1);
    } else if s[pos] == ')' {
        lemma_tokens_partition(s, pos + 1);
        lemma_partition_step(s, pos, punct_token(TokenKind::RightParen, s, pos), pos + 1);
    } else if s[pos] == '=' {
        lemma_tokens_partition(s, pos + 1);
        lemma_partition_step(s, pos, punct_token(TokenKind::Equals, s, pos), pos + 1);
    } else if s[pos] == '"' {
        lemma_string_resume_bounds(s, pos);
        lemma_tokens_partition(s, string_resume(s, pos));
        lemma_partition_step(s, pos, string_token(s, pos), string_resume(s, pos));
    } else if at_comment(s, pos) {
        lemma_skip_line_bounds(s, pos);
        lemma_tokens_partition(s, skip_line(s, pos));
        let rest = spec_tokens(s, skip_line(s, pos));
        assert(toks == rest);
        if rest.len() == 0 {
            assert(skipped_region(s, pos, s.len() as int));
        } else {
            assert(skipped_region(s, pos, rest[0].span.start));
        }
    } else if is_alpha_char(s[pos]) {
        lemma_ident_end_bounds(s, pos + 1);
        assert(ident_end(s, pos) == ident_end(s, pos + 1));
        lemma_tokens_partition(s, ident_end(s, pos));
        lemma_partition_step(s, pos, ident_token(s, pos), ident_end(s, pos));
    } else {
        lemma_tokens_partition(s, pos + 1);
        lemma_partition_step(s, pos, error_token(s, pos), pos + 1);
    }
}

} // verus!
