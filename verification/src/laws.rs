//! General laws of the lexer, stated over the model and proved once and
//! for all inputs.

use vstd::prelude::*;

use crate::ast::{Keyword, TokenV};
use crate::tokenizer::{
    LexErrorKind, ScanStep, ci_eq, digit_pred, digits_val, ident_pred, is_alpha_char,
    is_digit_char, is_ident_char, kw_of, run_end, spec_scan, spec_tokenize, string_close,
    word_token,
};

verus! {

/// The lowercase spelling of a reserved word.
pub open spec fn kw_lower(w: Keyword) -> Seq<char> {
    match w {
        Keyword::Select => "select"@,
        Keyword::Create => "create"@,
        Keyword::Table => "table"@,
        Keyword::Where => "where"@,
        Keyword::From => "from"@,
        Keyword::Order => "order"@,
        Keyword::By => "by"@,
        Keyword::And => "and"@,
        Keyword::Or => "or"@,
        Keyword::Not => "not"@,
    }
}

/// The uppercase spelling of a reserved word.
pub open spec fn kw_upper(w: Keyword) -> Seq<char> {
    match w {
        Keyword::Select => "SELECT"@,
        Keyword::Create => "CREATE"@,
        Keyword::Table => "TABLE"@,
        Keyword::Where => "WHERE"@,
        Keyword::From => "FROM"@,
        Keyword::Order => "ORDER"@,
        Keyword::By => "BY"@,
        Keyword::And => "AND"@,
        Keyword::Or => "OR"@,
        Keyword::Not => "NOT"@,
    }
}

/// A casing variant of a reserved word: at each position, either the
/// lowercase or the uppercase letter of that word.
pub open spec fn casing_variant(s: Seq<char>, w: Keyword) -> bool {
    ci_eq(s, kw_lower(w), kw_upper(w))
}

proof fn reveal_keywords()
    ensures
        forall|w: Keyword| (#[trigger] kw_lower(w)).len() == kw_upper(w).len(),
        forall|w: Keyword| (#[trigger] kw_lower(w)).len() >= 1,
        forall|w: Keyword, k: int|
            0 <= k < kw_lower(w).len() ==> is_alpha_char(#[trigger] kw_lower(w)[k])
                && is_alpha_char(kw_upper(w)[k]),
{
    reveal_strlit("select");
    reveal_strlit("SELECT");
    reveal_strlit("create");
    reveal_strlit("CREATE");
    reveal_strlit("table");
    reveal_strlit("TABLE");
    reveal_strlit("where");
    reveal_strlit("WHERE");
    reveal_strlit("from");
    reveal_strlit("FROM");
    reveal_strlit("order");
    reveal_strlit("ORDER");
    reveal_strlit("by");
    reveal_strlit("BY");
    reveal_strlit("and");
    reveal_strlit("AND");
    reveal_strlit("not");
    reveal_strlit("NOT");
    reveal_strlit("or");
    reveal_strlit("OR");
    assert forall|w: Keyword, k: int| 0 <= k < kw_lower(w).len() implies is_alpha_char(
        #[trigger] kw_lower(w)[k],
    ) && is_alpha_char(kw_upper(w)[k]) by {
        match w {
            Keyword::Select => {},
            Keyword::Create => {},
            Keyword::Table => {},
            Keyword::Where => {},
            Keyword::From => {},
            Keyword::Order => {},
            Keyword::By => {},
            Keyword::And => {},
            Keyword::Or => {},
            Keyword::Not => {},
        }
    }
}

/// Every run of identifier characters reaches the end of the input.
proof fn lemma_run_end_full(s: Seq<char>, i: int, p: spec_fn(char) -> bool)
    requires
        0 <= i <= s.len(),
        forall|k: int| i <= k < s.len() ==> p(s[k]),
    ensures
        run_end(s, i, p) == s.len(),
    decreases s.len() - i,
{
    if i < s.len() {
        lemma_run_end_full(s, i + 1, p);
    }
}

/// Maximal munch: a whole input shaped like one identifier lexeme (a
/// leading letter or underscore, then letters, digits and underscores)
/// is lexed as exactly one token — the word's classification — followed
/// by the sentinel, never split.
pub proof fn lemma_maximal_munch(s: Seq<char>)
    requires
        s.len() >= 1,
        is_alpha_char(s[0]) || s[0] == '_',
        forall|k: int| 0 <= k < s.len() ==> is_ident_char(#[trigger] s[k]),
    ensures
        spec_tokenize(s, 0) == seq![word_token(s), TokenV::Eof],
{
    lemma_run_end_full(s, 0, ident_pred());
    assert(s.subrange(0, s.len() as int) =~= s);
    assert(spec_scan(s, 0) == ScanStep::Token(word_token(s), s.len() as int));
    assert(spec_tokenize(s, s.len() as int) == seq![TokenV::Eof]);
    assert(spec_tokenize(s, 0) =~= seq![word_token(s), TokenV::Eof]);
}

/// Keyword recognition is case-insensitive and total: any casing
/// variant of a reserved word, lexed alone, yields exactly that keyword
/// token followed by the sentinel.
pub proof fn lemma_keyword_case_insensitive(s: Seq<char>, w: Keyword)
    requires
        casing_variant(s, w),
    ensures
        spec_tokenize(s, 0) == seq![TokenV::Keyword(w), TokenV::Eof],
{
    reveal_keywords();
    assert forall|k: int| 0 <= k < s.len() implies is_ident_char(#[trigger] s[k]) by {
        assert(s[k] == kw_lower(w)[k] || s[k] == kw_upper(w)[k]);
    }
    assert(is_alpha_char(s[0]) || s[0] == '_') by {
        assert(s[0] == kw_lower(w)[0] || s[0] == kw_upper(w)[0]);
    }
    lemma_maximal_munch(s);
    assert(kw_of(s) == Some(w)) by {
        reveal_strlit("select");
        reveal_strlit("SELECT");
        reveal_strlit("create");
        reveal_strlit("CREATE");
        reveal_strlit("table");
        reveal_strlit("TABLE");
        reveal_strlit("where");
        reveal_strlit("WHERE");
        reveal_strlit("from");
        reveal_strlit("FROM");
        reveal_strlit("order");
        reveal_strlit("ORDER");
        reveal_strlit("by");
        reveal_strlit("BY");
        reveal_strlit("and");
        reveal_strlit("AND");
        reveal_strlit("not");
        reveal_strlit("NOT");
        reveal_strlit("or");
        reveal_strlit("OR");
        match w {
            Keyword::Select => {},
            Keyword::Create => {
                assert(s[0] == 'c' || s[0] == 'C');
            },
            Keyword::Table => {
                assert(s[0] == 't' || s[0] == 'T');
            },
            Keyword::Where => {
                assert(s[0] == 'w' || s[0] == 'W');
            },
            Keyword::From => {},
            Keyword::Order => {
                assert(s[0] == 'o' || s[0] == 'O');
            },
            Keyword::By => {
                assert(s[0] == 'b' || s[0] == 'B');
            },
            Keyword::And => {},
            Keyword::Or => {
                assert(s[0] == 'o' || s[0] == 'O');
            },
            Keyword::Not => {
                assert(s[0] == 'n' || s[0] == 'N');
            },
        }
    }
}

/// Numeric bounds: a whole input made of digits is lexed as the one
/// number token of its value when that value fits in a u64; a digit
/// run whose value does not fit is a number-format error, and the
/// token stream is truncated to just the sentinel.
pub proof fn lemma_numeric_bounds(s: Seq<char>)
    requires
        s.len() >= 1,
        forall|k: int| 0 <= k < s.len() ==> is_digit_char(#[trigger] s[k]),
    ensures
        digits_val(s) <= u64::MAX ==> spec_tokenize(s, 0) == seq![
            TokenV::Number(digits_val(s) as u64),
            TokenV::Eof,
        ],
        digits_val(s) > u64::MAX ==> spec_scan(s, 0) == ScanStep::Fail(LexErrorKind::ExpectedNumber)
            && spec_tokenize(s, 0) == seq![TokenV::Eof],
{
    lemma_run_end_full(s, 0, digit_pred());
    assert(s.subrange(0, s.len() as int) =~= s);
    if digits_val(s) <= u64::MAX {
        assert(spec_scan(s, 0) == ScanStep::Token(
            TokenV::Number(digits_val(s) as u64),
            s.len() as int,
        ));
        assert(spec_tokenize(s, s.len() as int) == seq![TokenV::Eof]);
        assert(spec_tokenize(s, 0) =~= seq![TokenV::Number(digits_val(s) as u64), TokenV::Eof]);
    }
}

/// No closing quote after `i` means no close is found.
proof fn lemma_string_close_none(s: Seq<char>, i: int)
    requires
        forall|k: int| i <= k < s.len() ==> s[k] != '"',
    ensures
        string_close(s, i) == None::<int>,
    decreases s.len() - i,
{
    if 0 <= i && i < s.len() {
        lemma_string_close_none(s, i + 1);
    }
}

/// Unterminated string: an input that opens a string literal and never
/// closes it is an unexpected-end-of-input error, and the token stream
/// is truncated to just the sentinel.
pub proof fn lemma_unterminated_string(s: Seq<char>)
    requires
        s.len() >= 1,
        s[0] == '"',
        forall|k: int| 1 <= k < s.len() ==> s[k] != '"',
    ensures
        spec_scan(s, 0) == ScanStep::Fail(LexErrorKind::UnexpectedEndOfInput),
        spec_tokenize(s, 0) == seq![TokenV::Eof],
{
    lemma_string_close_none(s, 1);
}

} // verus!
