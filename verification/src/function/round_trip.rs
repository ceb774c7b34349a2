//! Reading back what is written: the text written for a function parses
//! back as that function, with its regexes anchored as the parser anchors
//! them.
use vstd::prelude::*;

use crate::function::parse::{
    comma, comparison_operator, framed_path, function, function_tail, in_game, non_regex_path,
    non_regex_path_stops, path_stops, quote, quoted_path, span_not_in, span_spaces, tag,
    checksum_args, span_hex_digits, span_digits, file_size_args, framed_version, regex_path, regex_filename,
    regex_path_stops, regex_problem, anchored, last_slash, framed_regex_path, framed_regex_filename,
    filename_version_args, description_contains_args, version_args, version_string, ws_tag, Parsed,
};
use crate::function::{function_text, operator_text, ComparisonOperator, FunctionView};
use crate::pattern::regex_captures_len;
use crate::text::{
    decimal, digit_char, digit_value, digits_value, hex_upper, hex_upper_padded, is_digit, is_hex_digit,
};

verus! {

broadcast use vstd::string::group_string_axioms;

/// A path that the parser reads as a plain path: not empty, without the
/// characters that end such a path, and inside the game directory.
pub open spec fn plain_path(p: Seq<char>) -> bool {
    &&& p.len() > 0
    &&& forall|k: int| 0 <= k < p.len() ==> !non_regex_path_stops().contains(#[trigger] p[k])
    &&& in_game(p)
}

proof fn lemma_tag_present(s: Seq<char>, i: int, t: Seq<char>)
    requires
        0 <= i,
        i + t.len() <= s.len(),
        forall|k: int| 0 <= k < t.len() ==> s[i + k] == #[trigger] t[k],
    ensures
        tag(s, i, t) == Some(t.len()),
{
    assert(s.subrange(i, i + t.len()) =~= t);
}

proof fn lemma_tag_absent(s: Seq<char>, i: int, t: Seq<char>, k: int)
    requires
        0 <= k < t.len(),
        0 <= i + k < s.len(),
        s[i + k] != t[k],
    ensures
        tag(s, i, t) is None,
{
    if 0 <= i && i + t.len() <= s.len() && s.subrange(i, i + t.len()) == t {
        assert(s.subrange(i, i + t.len())[k] == s[i + k]);
    }
}

proof fn lemma_span_not_in(s: Seq<char>, i: int, n: int, set: Seq<char>)
    requires
        0 <= i,
        0 <= n,
        i + n < s.len(),
        forall|k: int| i <= k < i + n ==> !set.contains(#[trigger] s[k]),
        set.contains(s[i + n]),
    ensures
        span_not_in(s, i, set) == n,
    decreases n,
{
    if n > 0 {
        lemma_span_not_in(s, i + 1, n - 1, set);
    }
}

/// A plain path framed by `prefix` and `")` reads back as itself.
proof fn lemma_framed_path_reads(prefix: Seq<char>, p: Seq<char>)
    requires
        plain_path(p),
    ensures
        framed_path(prefix + p + "\")"@, 0, prefix) == Parsed::Done(
            (prefix + p + "\")"@).len(),
            p,
        ),
{
    reveal_strlit("\")");
    let s = prefix + p + "\")"@;
    let a = prefix.len() as int;
    let n = p.len() as int;
    lemma_tag_present(s, 0, prefix);
    assert(non_regex_path_stops().contains('"')) by {
        assert(non_regex_path_stops()[0] == '"');
    }
    assert forall|k: int| a <= k < a + n implies !non_regex_path_stops().contains(#[trigger] s[k]) by {
        assert(s[k] == p[k - a]);
    }
    lemma_span_not_in(s, a, n, non_regex_path_stops());
    assert(s.subrange(a, a + n) =~= p);
    assert(non_regex_path(s, a) == Parsed::Done(n as nat, p));
    lemma_tag_present(s, a + n, "\")"@);
}

/// The text of a function that names a plain path (`file`, `readable`,
/// `is_executable`, `active` or `is_master`) parses back, whole, as that
/// function.
proof fn lemma_path_function_reads_back(f: FunctionView)
    requires
        match f {
            FunctionView::FilePath(p) => plain_path(p),
            FunctionView::Readable(p) => plain_path(p),
            FunctionView::IsExecutable(p) => plain_path(p),
            FunctionView::ActivePath(p) => plain_path(p),
            FunctionView::IsMaster(p) => plain_path(p),
            _ => false,
        },
    ensures
        function(function_text(f), 0) == Parsed::Done(function_text(f).len(), f),
{
    reveal(function);
    reveal(function_tail);
    reveal_strlit("file(\"");
    reveal_strlit("file_size(");
    reveal_strlit("readable(\"");
    reveal_strlit("is_executable(\"");
    reveal_strlit("active(\"");
    reveal_strlit("is_master(\"");
    let s = function_text(f);
    match f {
        FunctionView::FilePath(p) => {
            lemma_framed_path_reads("file(\""@, p);
        },
        FunctionView::Readable(p) => {
            lemma_framed_path_reads("readable(\""@, p);
            lemma_tag_absent(s, 0, "file(\""@, 0);
            lemma_tag_absent(s, 0, "file_size("@, 0);
        },
        FunctionView::IsExecutable(p) => {
            lemma_framed_path_reads("is_executable(\""@, p);
            lemma_tag_absent(s, 0, "file(\""@, 0);
            lemma_tag_absent(s, 0, "file_size("@, 0);
            lemma_tag_absent(s, 0, "readable(\""@, 0);
        },
        FunctionView::ActivePath(p) => {
            lemma_framed_path_reads("active(\""@, p);
            lemma_tag_absent(s, 0, "file(\""@, 0);
            lemma_tag_absent(s, 0, "file_size("@, 0);
            lemma_tag_absent(s, 0, "readable(\""@, 0);
            lemma_tag_absent(s, 0, "is_executable(\""@, 0);
        },
        FunctionView::IsMaster(p) => {
            lemma_framed_path_reads("is_master(\""@, p);
            lemma_tag_absent(s, 0, "file(\""@, 0);
            lemma_tag_absent(s, 0, "file_size("@, 0);
            lemma_tag_absent(s, 0, "readable(\""@, 0);
            lemma_tag_absent(s, 0, "is_executable(\""@, 3);
            lemma_tag_absent(s, 0, "active(\""@, 0);
        },
        _ => {},
    }
}

/// A version that the parser reads back: not empty, without double quotes.
pub open spec fn plain_version(v: Seq<char>) -> bool {
    v.len() > 0 && forall|k: int| 0 <= k < v.len() ==> #[trigger] v[k] != '"'
}

proof fn lemma_quoted_path_reads(s: Seq<char>, i: int, p: Seq<char>)
    requires
        plain_path(p),
        0 <= i,
        i + p.len() + 1 < s.len(),
        s[i] == '"',
        forall|k: int| 0 <= k < p.len() ==> s[i + 1 + k] == #[trigger] p[k],
        s[i + 1 + p.len()] == '"',
    ensures
        quoted_path(s, i) == Parsed::Done((p.len() + 2) as nat, p),
{
    reveal_strlit("\"");
    let n = p.len() as int;
    lemma_tag_present(s, i, quote());
    assert(path_stops().contains('"')) by {
        assert(path_stops()[0] == '"');
    }
    assert forall|k: int| i + 1 <= k < i + 1 + n implies !path_stops().contains(#[trigger] s[k]) by {
        assert(s[k] == p[k - i - 1]);
        if path_stops().contains(s[k]) {
            let j = choose|j: int| 0 <= j < path_stops().len() && path_stops()[j] == s[k];
            assert(non_regex_path_stops()[j] == path_stops()[j]);
            assert(non_regex_path_stops().contains(p[k - i - 1]));
        }
    }
    lemma_span_not_in(s, i + 1, n, path_stops());
    lemma_tag_present(s, i + 1 + n, quote());
    assert(s.subrange(i + 1, i + 1 + n) =~= p);
}

proof fn lemma_comma_reads(s: Seq<char>, i: int)
    requires
        0 <= i,
        i + 2 < s.len(),
        s[i] == ',',
        s[i + 1] == ' ',
        s[i + 2] != ' ' && s[i + 2] != '\t',
    ensures
        ws_tag(s, i, comma()) == Some(2nat),
{
    assert(span_spaces(s, i) == 0);
    lemma_tag_present(s, i, comma());
    assert(span_spaces(s, i + 2) == 0);
    assert(span_spaces(s, i + 1) == 1);
}

proof fn lemma_version_string_reads(s: Seq<char>, i: int, v: Seq<char>)
    requires
        plain_version(v),
        0 <= i,
        i + v.len() + 1 < s.len(),
        s[i] == '"',
        forall|k: int| 0 <= k < v.len() ==> s[i + 1 + k] == #[trigger] v[k],
        s[i + 1 + v.len()] == '"',
    ensures
        version_string(s, i) == Parsed::Done((v.len() + 2) as nat, v),
{
    let m = v.len() as int;
    lemma_tag_present(s, i, quote());
    assert forall|k: int| i + 1 <= k < i + 1 + m implies !quote().contains(#[trigger] s[k]) by {
        assert(s[k] == v[k - i - 1]);
        if quote().contains(s[k]) {
            assert(quote()[0] == s[k]);
        }
    }
    assert(quote().contains(s[i + 1 + m])) by {
        assert(quote()[0] == '"');
    }
    lemma_span_not_in(s, i + 1, m, quote());
    lemma_tag_present(s, i + 1 + m, quote());
    assert(s.subrange(i + 1, i + 1 + m) =~= v);
}

proof fn lemma_operator_reads(s: Seq<char>, i: int, c: ComparisonOperator)
    requires
        0 <= i,
        i + operator_text(c).len() < s.len(),
        forall|k: int| 0 <= k < operator_text(c).len() ==> s[i + k] == #[trigger] operator_text(c)[k],
        s[i + operator_text(c).len()] == ')',
    ensures
        comparison_operator(s, i) == Parsed::Done(operator_text(c).len(), c),
{
    reveal_strlit("==");
    reveal_strlit("!=");
    reveal_strlit("<=");
    reveal_strlit(">=");
    reveal_strlit("<");
    reveal_strlit(">");
    let o = operator_text(c);
    assert(s[i] == o[0]);
    match c {
        ComparisonOperator::Equal => {
            lemma_tag_present(s, i, "=="@);
        },
        ComparisonOperator::NotEqual => {
            lemma_tag_absent(s, i, "=="@, 0);
            lemma_tag_present(s, i, "!="@);
        },
        ComparisonOperator::LessThanOrEqual => {
            lemma_tag_absent(s, i, "=="@, 0);
            lemma_tag_absent(s, i, "!="@, 0);
            lemma_tag_present(s, i, "<="@);
        },
        ComparisonOperator::GreaterThanOrEqual => {
            lemma_tag_absent(s, i, "=="@, 0);
            lemma_tag_absent(s, i, "!="@, 0);
            lemma_tag_absent(s, i, "<="@, 0);
            lemma_tag_present(s, i, ">="@);
        },
        ComparisonOperator::LessThan => {
            lemma_tag_absent(s, i, "=="@, 0);
            lemma_tag_absent(s, i, "!="@, 0);
            lemma_tag_absent(s, i, "<="@, 1);
            lemma_tag_absent(s, i, ">="@, 0);
            lemma_tag_present(s, i, "<"@);
        },
        ComparisonOperator::GreaterThan => {
            lemma_tag_absent(s, i, "=="@, 0);
            lemma_tag_absent(s, i, "!="@, 0);
            lemma_tag_absent(s, i, "<="@, 0);
            lemma_tag_absent(s, i, ">="@, 1);
            lemma_tag_absent(s, i, "<"@, 0);
            lemma_tag_present(s, i, ">"@);
        },
    }
}

/// The text of a version function's arguments.
pub open spec fn version_text(head: Seq<char>, p: Seq<char>, v: Seq<char>, c: ComparisonOperator) -> Seq<char> {
    head + p + "\", \""@ + v + "\", "@ + operator_text(c) + ")"@
}

proof fn lemma_version_args_read(head: Seq<char>, p: Seq<char>, v: Seq<char>, c: ComparisonOperator)
    requires
        head.len() >= 1,
        head.last() == '"',
        plain_path(p),
        plain_version(v),
    ensures
        version_args(version_text(head, p, v, c), head.len() - 1) == Parsed::Done(
            (version_text(head, p, v, c).len() - head.len()) as nat,
            (p, v, c),
        ),
{
    reveal_strlit("\", \"");
    reveal_strlit("\", ");
    reveal_strlit(")");
    reveal_strlit("==");
    reveal_strlit("!=");
    reveal_strlit("<=");
    reveal_strlit(">=");
    reveal_strlit("<");
    reveal_strlit(">");
    let s = version_text(head, p, v, c);
    let o = operator_text(c);
    let h = head.len() as int;
    let n = p.len() as int;
    let m = v.len() as int;
    let ol = o.len() as int;
    assert(s.len() == h + n + m + 8 + ol);
    assert(s[h - 1] == '"');
    assert forall|k: int| 0 <= k < n implies s[h - 1 + 1 + k] == #[trigger] p[k] by {}
    assert(s[h + n] == '"');
    assert(s[h + n + 1] == ',');
    assert(s[h + n + 2] == ' ');
    assert(s[h + n + 3] == '"');
    assert forall|k: int| 0 <= k < m implies s[h + n + 3 + 1 + k] == #[trigger] v[k] by {}
    assert(s[h + n + 4 + m] == '"');
    assert(s[h + n + m + 5] == ',');
    assert(s[h + n + m + 6] == ' ');
    assert forall|k: int| 0 <= k < ol implies s[h + n + m + 7 + k] == #[trigger] o[k] by {}
    assert(s[h + n + m + 7 + ol] == ')');
    assert(s[h + n + m + 7] != ' ' && s[h + n + m + 7] != '\t') by {
        assert(s[h + n + m + 7] == o[0]);
    }
    lemma_quoted_path_reads(s, h - 1, p);
    lemma_comma_reads(s, h + n + 1);
    lemma_version_string_reads(s, h + n + 3, v);
    lemma_comma_reads(s, h + n + m + 5);
    lemma_operator_reads(s, h + n + m + 7, c);
}

proof fn lemma_framed_version_reads(name: Seq<char>, head: Seq<char>, p: Seq<char>, v: Seq<char>, c: ComparisonOperator)
    requires
        head == name.push('"'),
        plain_path(p),
        plain_version(v),
    ensures
        framed_version(version_text(head, p, v, c), 0, name) == Parsed::Done(
            version_text(head, p, v, c).len(),
            (p, v, c),
        ),
{
    reveal_strlit(")");
    let s = version_text(head, p, v, c);
    lemma_version_args_read(head, p, v, c);
    assert forall|k: int| 0 <= k < name.len() implies s[k] == #[trigger] name[k] by {
        assert(s[k] == head[k]);
    }
    lemma_tag_present(s, 0, name);
    assert(s[s.len() - 1] == ')');
    lemma_tag_present(s, s.len() - 1, ")"@);
}

/// Where none of the alternatives before `is_master` applies, a function is
/// read by the alternatives from `is_master` on.
proof fn lemma_head_alternatives_skipped(s: Seq<char>)
    requires
        tag(s, 0, "file(\""@) is None,
        tag(s, 0, "file_size("@) is None,
        tag(s, 0, "readable(\""@) is None,
        tag(s, 0, "is_executable(\""@) is None,
        tag(s, 0, "active(\""@) is None,
    ensures
        function(s, 0) == function_tail(s, 0),
{
    reveal(function);
}

proof fn lemma_tail_reads_version(s: Seq<char>, n: nat, p: Seq<char>, v: Seq<char>, c: ComparisonOperator)
    requires
        tag(s, 0, "is_master(\""@) is None,
        tag(s, 0, "many(\""@) is None,
        tag(s, 0, "many_active(\""@) is None,
        framed_version(s, 0, "version("@) == Parsed::Done(n, (p, v, c)),
    ensures
        function_tail(s, 0) == Parsed::Done(n, FunctionView::Version(p, v, c)),
{
    reveal(function_tail);
}

proof fn lemma_tail_reads_product_version(s: Seq<char>, n: nat, p: Seq<char>, v: Seq<char>, c: ComparisonOperator)
    requires
        tag(s, 0, "is_master(\""@) is None,
        tag(s, 0, "many(\""@) is None,
        tag(s, 0, "many_active(\""@) is None,
        tag(s, 0, "version("@) is None,
        framed_version(s, 0, "product_version("@) == Parsed::Done(n, (p, v, c)),
    ensures
        function_tail(s, 0) == Parsed::Done(n, FunctionView::ProductVersion(p, v, c)),
{
    reveal(function_tail);
}

/// The text of a `version` or `product_version` function whose path is a
/// plain path and whose version holds no double quote parses back, whole,
/// as that function.
proof fn lemma_version_function_reads_back(f: FunctionView)
    requires
        match f {
            FunctionView::Version(p, v, _) => plain_path(p) && plain_version(v),
            FunctionView::ProductVersion(p, v, _) => plain_path(p) && plain_version(v),
            _ => false,
        },
    ensures
        function(function_text(f), 0) == Parsed::Done(function_text(f).len(), f),
{
    reveal_strlit("file(\"");
    reveal_strlit("file_size(");
    reveal_strlit("readable(\"");
    reveal_strlit("is_executable(\"");
    reveal_strlit("active(\"");
    reveal_strlit("is_master(\"");
    reveal_strlit("many(\"");
    reveal_strlit("many_active(\"");
    reveal_strlit("version(");
    reveal_strlit("version(\"");
    reveal_strlit("product_version(");
    reveal_strlit("product_version(\"");
    let s = function_text(f);
    lemma_tag_absent(s, 0, "file(\""@, 0);
    lemma_tag_absent(s, 0, "file_size("@, 0);
    lemma_tag_absent(s, 0, "readable(\""@, 0);
    lemma_tag_absent(s, 0, "is_executable(\""@, 0);
    lemma_tag_absent(s, 0, "active(\""@, 0);
    lemma_tag_absent(s, 0, "is_master(\""@, 0);
    lemma_tag_absent(s, 0, "many(\""@, 0);
    lemma_tag_absent(s, 0, "many_active(\""@, 0);
    lemma_head_alternatives_skipped(s);
    match f {
        FunctionView::Version(p, v, c) => {
            assert("version(\""@ =~= "version("@.push('"'));
            lemma_framed_version_reads("version("@, "version(\""@, p, v, c);
            lemma_tail_reads_version(s, s.len(), p, v, c);
        },
        FunctionView::ProductVersion(p, v, c) => {
            lemma_tag_absent(s, 0, "version("@, 0);
            assert("product_version(\""@ =~= "product_version("@.push('"'));
            lemma_framed_version_reads("product_version("@, "product_version(\""@, p, v, c);
            lemma_tail_reads_product_version(s, s.len(), p, v, c);
        },
        _ => {},
    }
}

proof fn lemma_digit_reads(d: nat)
    requires
        d < 16,
    ensures
        is_hex_digit(digit_char(d)),
        digit_value(digit_char(d)) == d,
        digit_char(d) != ')',
{
}

proof fn lemma_hex_reads(n: nat)
    ensures
        hex_upper(n).len() > 0,
        forall|k: int| 0 <= k < hex_upper(n).len() ==> is_hex_digit(#[trigger] hex_upper(n)[k]),
        digits_value(hex_upper(n), 16) == n,
    decreases n,
{
    if n < 16 {
        lemma_digit_reads(n);
        let h = seq![digit_char(n)];
        assert(h.drop_last() =~= Seq::<char>::empty());
        assert(digits_value(h.drop_last(), 16) == 0);
        assert(digits_value(h, 16) == digits_value(h.drop_last(), 16) * 16 + digit_value(h.last()));
    } else {
        lemma_hex_reads(n / 16);
        lemma_digit_reads(n % 16);
        let h = hex_upper(n);
        assert(h.drop_last() =~= hex_upper(n / 16));
        assert(h.last() == digit_char(n % 16));
        assert(digits_value(h, 16) == digits_value(hex_upper(n / 16), 16) * 16 + digit_value(
            digit_char(n % 16),
        ));
        assert((n / 16) * 16 + n % 16 == n) by (nonlinear_arith);
    }
}

proof fn lemma_padded_hex_reads(n: nat)
    ensures
        hex_upper_padded(n).len() > 0,
        forall|k: int| 0 <= k < hex_upper_padded(n).len() ==> is_hex_digit(
            #[trigger] hex_upper_padded(n)[k],
        ),
        digits_value(hex_upper_padded(n), 16) == n,
{
    if n < 16 {
        lemma_digit_reads(n);
        lemma_digit_reads(0);
        let h = hex_upper_padded(n);
        assert(h.drop_last() =~= seq!['0']);
        assert(seq!['0'].drop_last() =~= Seq::<char>::empty());
        assert(digit_char(0) == '0');
        assert(digits_value(seq!['0'].drop_last(), 16) == 0);
        assert(digits_value(seq!['0'], 16) == digits_value(seq!['0'].drop_last(), 16) * 16
            + digit_value('0'));
        assert(digits_value(h, 16) == digits_value(h.drop_last(), 16) * 16 + digit_value(h.last()));
    } else {
        lemma_hex_reads(n);
    }
}

proof fn lemma_span_hex(s: Seq<char>, i: int, n: int)
    requires
        0 <= i,
        0 <= n,
        i + n < s.len(),
        forall|k: int| i <= k < i + n ==> is_hex_digit(#[trigger] s[k]),
        !is_hex_digit(s[i + n]),
    ensures
        span_hex_digits(s, i) == n,
    decreases n,
{
    if n > 0 {
        lemma_span_hex(s, i + 1, n - 1);
    }
}

proof fn lemma_tail_reads_checksum(s: Seq<char>, k: nat, p: Seq<char>, c: u32)
    requires
        tag(s, 0, "is_master(\""@) is None,
        tag(s, 0, "many(\""@) is None,
        tag(s, 0, "many_active(\""@) is None,
        tag(s, 0, "version("@) is None,
        tag(s, 0, "product_version("@) is None,
        tag(s, 0, "filename_version("@) is None,
        tag(s, 0, "checksum("@) == Some(9nat),
        checksum_args(s, 9) == Parsed::Done(k, (p, c)),
        tag(s, 9 + k as int, ")"@) == Some(1nat),
    ensures
        function_tail(s, 0) == Parsed::Done(k + 10, FunctionView::Checksum(p, c)),
{
    reveal(function_tail);
}

/// The text of a `checksum` function whose path is a plain path parses
/// back, whole, as that function.
proof fn lemma_checksum_function_reads_back(p: Seq<char>, c: u32)
    requires
        plain_path(p),
    ensures
        function(function_text(FunctionView::Checksum(p, c)), 0) == Parsed::Done(
            function_text(FunctionView::Checksum(p, c)).len(),
            FunctionView::Checksum(p, c),
        ),
{
    reveal_strlit("file(\"");
    reveal_strlit("file_size(");
    reveal_strlit("readable(\"");
    reveal_strlit("is_executable(\"");
    reveal_strlit("active(\"");
    reveal_strlit("is_master(\"");
    reveal_strlit("many(\"");
    reveal_strlit("many_active(\"");
    reveal_strlit("version(");
    reveal_strlit("product_version(");
    reveal_strlit("filename_version(");
    reveal_strlit("checksum(");
    reveal_strlit("checksum(\"");
    reveal_strlit("\", ");
    reveal_strlit(")");
    let f = FunctionView::Checksum(p, c);
    let s = function_text(f);
    let x = hex_upper_padded(c as nat);
    let n = p.len() as int;
    let xl = x.len() as int;
    lemma_padded_hex_reads(c as nat);
    assert(s.len() == 10 + n + 3 + xl + 1);
    lemma_tag_absent(s, 0, "file(\""@, 0);
    lemma_tag_absent(s, 0, "file_size("@, 0);
    lemma_tag_absent(s, 0, "readable(\""@, 0);
    lemma_tag_absent(s, 0, "is_executable(\""@, 0);
    lemma_tag_absent(s, 0, "active(\""@, 0);
    lemma_tag_absent(s, 0, "is_master(\""@, 0);
    lemma_tag_absent(s, 0, "many(\""@, 0);
    lemma_tag_absent(s, 0, "many_active(\""@, 0);
    lemma_tag_absent(s, 0, "version("@, 0);
    lemma_tag_absent(s, 0, "product_version("@, 0);
    lemma_tag_absent(s, 0, "filename_version("@, 0);
    lemma_head_alternatives_skipped(s);
    assert forall|k: int| 0 <= k < 9 implies s[k] == #[trigger] "checksum("@[k] by {
        assert(s[k] == "checksum(\""@[k]);
    }
    lemma_tag_present(s, 0, "checksum("@);
    assert(s[9] == '"');
    assert forall|k: int| 0 <= k < n implies s[9 + 1 + k] == #[trigger] p[k] by {}
    assert(s[10 + n] == '"');
    assert(s[11 + n] == ',');
    assert(s[12 + n] == ' ');
    assert forall|k: int| 13 + n <= k < 13 + n + xl implies is_hex_digit(#[trigger] s[k]) by {
        assert(s[k] == x[k - 13 - n]);
    }
    assert(s[13 + n + xl] == ')');
    assert(s[13 + n] != ' ' && s[13 + n] != '\t') by {
        assert(s[13 + n] == x[0]);
    }
    lemma_quoted_path_reads(s, 9, p);
    lemma_comma_reads(s, 11 + n);
    lemma_span_hex(s, 13 + n, xl);
    assert(s.subrange(13 + n, 13 + n + xl) =~= x);
    assert(checksum_args(s, 9) == Parsed::Done((n + 4 + xl) as nat, (p, c)));
    lemma_tag_present(s, 13 + n + xl, ")"@);
    lemma_tail_reads_checksum(s, (n + 4 + xl) as nat, p, c);
}

proof fn lemma_decimal_reads(n: nat)
    ensures
        decimal(n).len() > 0,
        forall|k: int| 0 <= k < decimal(n).len() ==> is_digit(#[trigger] decimal(n)[k]),
        digits_value(decimal(n), 10) == n,
    decreases n,
{
    if n < 10 {
        let h = seq![digit_char(n)];
        assert(h.drop_last() =~= Seq::<char>::empty());
        assert(digits_value(h.drop_last(), 10) == 0);
        assert(digits_value(h, 10) == digits_value(h.drop_last(), 10) * 10 + digit_value(h.last()));
    } else {
        lemma_decimal_reads(n / 10);
        let h = decimal(n);
        assert(h.drop_last() =~= decimal(n / 10));
        assert(h.last() == digit_char(n % 10));
        assert(digits_value(h, 10) == digits_value(decimal(n / 10), 10) * 10 + digit_value(
            digit_char(n % 10),
        ));
        assert((n / 10) * 10 + n % 10 == n) by (nonlinear_arith);
    }
}

proof fn lemma_span_digits(s: Seq<char>, i: int, n: int)
    requires
        0 <= i,
        0 <= n,
        i + n < s.len(),
        forall|k: int| i <= k < i + n ==> is_digit(#[trigger] s[k]),
        !is_digit(s[i + n]),
    ensures
        span_digits(s, i) == n,
    decreases n,
{
    if n > 0 {
        lemma_span_digits(s, i + 1, n - 1);
    }
}

proof fn lemma_function_reads_file_size(s: Seq<char>, k: nat, p: Seq<char>, size: u64)
    requires
        tag(s, 0, "file(\""@) is None,
        tag(s, 0, "file_size("@) == Some(10nat),
        file_size_args(s, 10) == Parsed::Done(k, (p, size)),
        tag(s, 10 + k as int, ")"@) == Some(1nat),
    ensures
        function(s, 0) == Parsed::Done(k + 11, FunctionView::FileSize(p, size)),
{
    reveal(function);
}

/// The text of a `file_size` function of a plain path parses back, whole, as
/// that function.
proof fn lemma_file_size_function_reads_back(p: Seq<char>, size: u64)
    requires
        plain_path(p),
    ensures
        function(function_text(FunctionView::FileSize(p, size)), 0) == Parsed::Done(
            function_text(FunctionView::FileSize(p, size)).len(),
            FunctionView::FileSize(p, size),
        ),
{
    reveal_strlit("file(\"");
    reveal_strlit("file_size(");
    reveal_strlit("file_size(\"");
    reveal_strlit("\", ");
    reveal_strlit(")");
    let f = FunctionView::FileSize(p, size);
    let s = function_text(f);
    let d = decimal(size as nat);
    let n = p.len() as int;
    let dl = d.len() as int;
    lemma_decimal_reads(size as nat);
    assert(s.len() == 11 + n + 3 + dl + 1);
    lemma_tag_absent(s, 0, "file(\""@, 4);
    assert forall|k: int| 0 <= k < 10 implies s[k] == #[trigger] "file_size("@[k] by {
        assert(s[k] == "file_size(\""@[k]);
    }
    lemma_tag_present(s, 0, "file_size("@);
    assert(s[10] == '"');
    assert forall|k: int| 0 <= k < n implies s[10 + 1 + k] == #[trigger] p[k] by {}
    assert(s[11 + n] == '"');
    assert(s[12 + n] == ',');
    assert(s[13 + n] == ' ');
    assert forall|k: int| 14 + n <= k < 14 + n + dl implies is_digit(#[trigger] s[k]) by {
        assert(s[k] == d[k - 14 - n]);
    }
    assert(s[14 + n + dl] == ')');
    assert(s[14 + n] != ' ' && s[14 + n] != '\t') by {
        assert(s[14 + n] == d[0]);
    }
    lemma_quoted_path_reads(s, 10, p);
    lemma_comma_reads(s, 12 + n);
    lemma_span_digits(s, 14 + n, dl);
    assert(s.subrange(14 + n, 14 + n + dl) =~= d);
    assert(file_size_args(s, 10) == Parsed::Done((n + 4 + dl) as nat, (p, size)));
    lemma_tag_present(s, 14 + n + dl, ")"@);
    lemma_function_reads_file_size(s, (n + 4 + dl) as nat, p, size);
}

/// A regex as a function's text holds it: not empty, and without the
/// characters that end a quoted regex (`"`, `<`, `>`) or a `/`, which would
/// split it from a path; and it compiles, anchored to whole names, as a
/// case-insensitive regex.
pub open spec fn written_regex(r: Seq<char>) -> bool {
    &&& r.len() > 0
    &&& forall|k: int| 0 <= k < r.len() ==> #[trigger] r[k] != '/' && !regex_path_stops().contains(r[k])
    &&& regex_problem(anchored(r)) is None
}

/// How many characters of a regex come before the first one that a plain
/// path cannot hold.
pub open spec fn plain_prefix_len(r: Seq<char>) -> nat {
    span_not_in(r, 0, non_regex_path_stops())
}

proof fn lemma_span_facts(s: Seq<char>, i: int, set: Seq<char>)
    requires
        0 <= i <= s.len(),
    ensures
        i + span_not_in(s, i, set) <= s.len(),
        forall|k: int| i <= k < i + span_not_in(s, i, set) ==> !set.contains(#[trigger] s[k]),
        i + span_not_in(s, i, set) < s.len() ==> set.contains(s[i + span_not_in(s, i, set)]),
    decreases s.len() - i,
{
    if i < s.len() && !set.contains(s[i]) {
        lemma_span_facts(s, i + 1, set);
    }
}

proof fn lemma_last_slash_before(x: Seq<char>, r: Seq<char>)
    requires
        forall|k: int| 0 <= k < r.len() ==> #[trigger] r[k] != '/',
    ensures
        last_slash(x + seq!['/'] + r) == Some(x.len() as int),
    decreases r.len(),
{
    let t = x + seq!['/'] + r;
    if r.len() == 0 {
        assert(t.last() == '/');
    } else {
        assert(t.last() == r.last());
        lemma_last_slash_before(x, r.drop_last());
        assert(t.drop_last() =~= x + seq!['/'] + r.drop_last());
    }
}

proof fn lemma_regex_path_reads(s: Seq<char>, i: int, p: Seq<char>, r: Seq<char>)
    requires
        plain_path(p),
        written_regex(r),
        0 <= i,
        i + p.len() + 1 + r.len() < s.len(),
        forall|k: int| 0 <= k < p.len() ==> s[i + k] == #[trigger] p[k],
        s[i + p.len()] == '/',
        forall|k: int| 0 <= k < r.len() ==> s[i + p.len() + 1 + k] == #[trigger] r[k],
        s[i + p.len() + 1 + r.len()] == '"',
    ensures
        regex_path(s, i) == Parsed::Done((p.len() + 1 + r.len()) as nat, (p, anchored(r))),
{
    let n = p.len() as int;
    let m = r.len() as int;
    let set = regex_path_stops();
    assert(set.contains('"')) by {
        assert(set[0] == '"');
    }
    assert forall|k: int| i <= k < i + n + 1 + m implies !set.contains(#[trigger] s[k]) by {
        if k < i + n {
            assert(s[k] == p[k - i]);
            if set.contains(s[k]) {
                let j = choose|j: int| 0 <= j < set.len() && set[j] == s[k];
                assert(non_regex_path_stops().contains(p[k - i])) by {
                    if j == 0 {
                        assert(non_regex_path_stops()[0] == set[j]);
                    } else if j == 1 {
                        assert(non_regex_path_stops()[4] == set[j]);
                    } else {
                        assert(non_regex_path_stops()[5] == set[j]);
                    }
                }
            }
        } else if k == i + n {
        } else {
            assert(s[k] == r[k - i - n - 1]);
        }
    }
    lemma_span_not_in(s, i, n + 1 + m, set);
    let t = s.subrange(i, i + n + 1 + m);
    assert(t =~= p + seq!['/'] + r);
    lemma_last_slash_before(p, r);
    assert(t.take(n) =~= p);
    assert(t.skip(n + 1) =~= r);
    assert(t.last() == r.last());
}

proof fn lemma_regex_filename_reads(s: Seq<char>, i: int, r: Seq<char>)
    requires
        r.len() > 0,
        forall|k: int| 0 <= k < r.len() ==> !regex_path_stops().contains(#[trigger] r[k]),
        regex_problem(anchored(r)) is None,
        0 <= i,
        i + r.len() < s.len(),
        forall|k: int| 0 <= k < r.len() ==> s[i + k] == #[trigger] r[k],
        s[i + r.len()] == '"',
    ensures
        regex_filename(s, i) == Parsed::Done(r.len(), anchored(r)),
{
    let m = r.len() as int;
    assert(regex_path_stops().contains('"')) by {
        assert(regex_path_stops()[0] == '"');
    }
    assert forall|k: int| i <= k < i + m implies !regex_path_stops().contains(#[trigger] s[k]) by {
        assert(s[k] == r[k - i]);
    }
    lemma_span_not_in(s, i, m, regex_path_stops());
    assert(s.subrange(i, i + m) =~= r);
}

/// A regex written as an `active` function's argument that the parser reads
/// back as a regex: not empty, without `"`, `<` or `>`, compiling anchored,
/// and holding a character that a plain path cannot hold (else it would be
/// read as a plain path), where what comes before that character, if
/// anything, stays inside the game directory (else the parser rejects it).
pub open spec fn written_active_regex(r: Seq<char>) -> bool {
    &&& r.len() > 0
    &&& forall|k: int| 0 <= k < r.len() ==> !regex_path_stops().contains(#[trigger] r[k])
    &&& regex_problem(anchored(r)) is None
    &&& plain_prefix_len(r) < r.len()
    &&& (plain_prefix_len(r) == 0 || in_game(r.take(plain_prefix_len(r) as int)))
}

/// A path and regex written as a `file` function's argument that the parser
/// reads back as a regex function: the regex holds a character that a plain
/// path cannot hold (else the text would be read as a plain path), and the
/// path up to that character stays inside the game directory (else the
/// parser rejects it).
pub open spec fn written_file_regex(p: Seq<char>, r: Seq<char>) -> bool {
    &&& plain_path(p)
    &&& written_regex(r)
    &&& plain_prefix_len(r) < r.len()
    &&& in_game(p + "/"@ + r.take(plain_prefix_len(r) as int))
}

proof fn lemma_function_reads_tail(s: Seq<char>)
    requires
        s.len() > 0,
        s[0] != 'f' && s[0] != 'r' && s[0] != 'i' && s[0] != 'a',
    ensures
        function(s, 0) == function_tail(s, 0),
{
    reveal_strlit("file(\"");
    reveal_strlit("file_size(");
    reveal_strlit("readable(\"");
    reveal_strlit("is_executable(\"");
    reveal_strlit("active(\"");
    lemma_tag_absent(s, 0, "file(\""@, 0);
    lemma_tag_absent(s, 0, "file_size("@, 0);
    lemma_tag_absent(s, 0, "readable(\""@, 0);
    lemma_tag_absent(s, 0, "is_executable(\""@, 0);
    lemma_tag_absent(s, 0, "active(\""@, 0);
    lemma_head_alternatives_skipped(s);
}

proof fn lemma_tail_reads_many(s: Seq<char>, n: nat, p: Seq<char>, r: Seq<char>)
    requires
        tag(s, 0, "is_master(\""@) is None,
        framed_regex_path(s, 0, "many(\""@) == Parsed::Done(n, (p, r)),
    ensures
        function_tail(s, 0) == Parsed::Done(n, FunctionView::Many(p, r)),
{
    reveal(function_tail);
}

proof fn lemma_tail_reads_many_active(s: Seq<char>, n: nat, r: Seq<char>)
    requires
        tag(s, 0, "is_master(\""@) is None,
        tag(s, 0, "many(\""@) is None,
        framed_regex_filename(s, 0, "many_active(\""@) == Parsed::Done(n, r),
    ensures
        function_tail(s, 0) == Parsed::Done(n, FunctionView::ManyActive(r)),
{
    reveal(function_tail);
}

proof fn lemma_tail_reads_filename_version(
    s: Seq<char>,
    k: nat,
    p: Seq<char>,
    r: Seq<char>,
    v: Seq<char>,
    c: ComparisonOperator,
)
    requires
        tag(s, 0, "is_master(\""@) is None,
        tag(s, 0, "many(\""@) is None,
        tag(s, 0, "many_active(\""@) is None,
        tag(s, 0, "version("@) is None,
        tag(s, 0, "product_version("@) is None,
        tag(s, 0, "filename_version("@) == Some(17nat),
        filename_version_args(s, 17) == Parsed::Done(k, (p, r, v, c)),
        tag(s, 17 + k as int, ")"@) == Some(1nat),
    ensures
        function_tail(s, 0) == Parsed::Done(k + 18, FunctionView::FilenameVersion(p, r, v, c)),
{
    reveal(function_tail);
}

proof fn lemma_function_reads_active_regex(s: Seq<char>, n: nat, r: Seq<char>)
    requires
        tag(s, 0, "file(\""@) is None,
        tag(s, 0, "file_size("@) is None,
        tag(s, 0, "readable(\""@) is None,
        tag(s, 0, "is_executable(\""@) is None,
        framed_path(s, 0, "active(\""@) is Backtrack,
        framed_regex_filename(s, 0, "active(\""@) == Parsed::Done(n, r),
    ensures
        function(s, 0) == Parsed::Done(n, FunctionView::ActiveRegex(r)),
{
    reveal(function);
}

proof fn lemma_function_reads_file_regex(s: Seq<char>, n: nat, p: Seq<char>, r: Seq<char>)
    requires
        framed_path(s, 0, "file(\""@) is Backtrack,
        framed_regex_path(s, 0, "file(\""@) == Parsed::Done(n, (p, r)),
    ensures
        function(s, 0) == Parsed::Done(n, FunctionView::FileRegex(p, r)),
{
    reveal(function);
}

/// The text of a `many` function of a plain path and a written regex parses
/// back, whole, as that function with its regex anchored.
proof fn lemma_many_reads_back(p: Seq<char>, r: Seq<char>)
    requires
        plain_path(p),
        written_regex(r),
    ensures
        function(function_text(FunctionView::Many(p, r)), 0) == Parsed::Done(
            function_text(FunctionView::Many(p, r)).len(),
            FunctionView::Many(p, anchored(r)),
        ),
{
    reveal_strlit("many(\"");
    reveal_strlit("is_master(\"");
    reveal_strlit("/");
    reveal_strlit("\")");
    let s = function_text(FunctionView::Many(p, r));
    let n = p.len() as int;
    let m = r.len() as int;
    assert(s.len() == 6 + n + 1 + m + 2);
    lemma_function_reads_tail(s);
    lemma_tag_absent(s, 0, "is_master(\""@, 0);
    lemma_tag_present(s, 0, "many(\""@);
    assert forall|k: int| 0 <= k < n implies s[6 + k] == #[trigger] p[k] by {}
    assert(s[6 + n] == '/');
    assert forall|k: int| 0 <= k < m implies s[6 + n + 1 + k] == #[trigger] r[k] by {}
    assert(s[6 + n + 1 + m] == '"');
    lemma_regex_path_reads(s, 6, p, r);
    lemma_tag_present(s, 6 + n + 1 + m, "\")"@);
    lemma_tail_reads_many(s, s.len(), p, anchored(r));
}

/// The text of a `many_active` function of a regex without `"`, `<` or `>`
/// that compiles anchored parses back, whole, as that function with its
/// regex anchored.
proof fn lemma_many_active_reads_back(r: Seq<char>)
    requires
        r.len() > 0,
        forall|k: int| 0 <= k < r.len() ==> !regex_path_stops().contains(#[trigger] r[k]),
        regex_problem(anchored(r)) is None,
    ensures
        function(function_text(FunctionView::ManyActive(r)), 0) == Parsed::Done(
            function_text(FunctionView::ManyActive(r)).len(),
            FunctionView::ManyActive(anchored(r)),
        ),
{
    reveal_strlit("many_active(\"");
    reveal_strlit("many(\"");
    reveal_strlit("is_master(\"");
    reveal_strlit("\")");
    let s = function_text(FunctionView::ManyActive(r));
    let m = r.len() as int;
    assert(s.len() == 13 + m + 2);
    lemma_function_reads_tail(s);
    lemma_tag_absent(s, 0, "is_master(\""@, 0);
    lemma_tag_absent(s, 0, "many(\""@, 4);
    lemma_tag_present(s, 0, "many_active(\""@);
    assert forall|k: int| 0 <= k < m implies s[13 + k] == #[trigger] r[k] by {}
    assert(s[13 + m] == '"');
    lemma_regex_filename_reads(s, 13, r);
    lemma_tag_present(s, 13 + m, "\")"@);
    lemma_tail_reads_many_active(s, s.len(), anchored(r));
}

/// The text of an `active` function of a regex that is not read as a plain
/// path parses back, whole, as that function with its regex anchored.
proof fn lemma_active_regex_reads_back(r: Seq<char>)
    requires
        written_active_regex(r),
    ensures
        function(function_text(FunctionView::ActiveRegex(r)), 0) == Parsed::Done(
            function_text(FunctionView::ActiveRegex(r)).len(),
            FunctionView::ActiveRegex(anchored(r)),
        ),
{
    reveal_strlit("file(\"");
    reveal_strlit("file_size(");
    reveal_strlit("readable(\"");
    reveal_strlit("is_executable(\"");
    reveal_strlit("active(\"");
    reveal_strlit("\")");
    let s = function_text(FunctionView::ActiveRegex(r));
    let m = r.len() as int;
    let k = plain_prefix_len(r) as int;
    let stops = non_regex_path_stops();
    assert(s.len() == 8 + m + 2);
    lemma_tag_absent(s, 0, "file(\""@, 0);
    lemma_tag_absent(s, 0, "file_size("@, 0);
    lemma_tag_absent(s, 0, "readable(\""@, 0);
    lemma_tag_absent(s, 0, "is_executable(\""@, 0);
    lemma_tag_present(s, 0, "active(\""@);
    assert forall|j: int| 0 <= j < m implies s[8 + j] == #[trigger] r[j] by {}
    assert(s[8 + m] == '"');
    lemma_span_facts(r, 0, stops);
    assert forall|j: int| 8 <= j < 8 + k implies !stops.contains(#[trigger] s[j]) by {
        assert(s[j] == r[j - 8]);
    }
    assert(s[8 + k] == r[k]);
    lemma_span_not_in(s, 8, k, stops);
    if k > 0 {
        assert(s.subrange(8, 8 + k) =~= r.take(k));
        assert(r[k] != '"') by {
            assert(regex_path_stops()[0] == '"');
            assert(!regex_path_stops().contains(r[k]));
        }
        lemma_tag_absent(s, 8 + k, "\")"@, 0);
    }
    assert(framed_path(s, 0, "active(\""@) is Backtrack);
    lemma_regex_filename_reads(s, 8, r);
    lemma_tag_present(s, 8 + m, "\")"@);
    lemma_function_reads_active_regex(s, s.len(), anchored(r));
}

/// The text of a `file` function of a path and a regex that is not read as a
/// plain path parses back, whole, as that function with its regex anchored.
proof fn lemma_file_regex_reads_back(p: Seq<char>, r: Seq<char>)
    requires
        written_file_regex(p, r),
    ensures
        function(function_text(FunctionView::FileRegex(p, r)), 0) == Parsed::Done(
            function_text(FunctionView::FileRegex(p, r)).len(),
            FunctionView::FileRegex(p, anchored(r)),
        ),
{
    reveal_strlit("file(\"");
    reveal_strlit("/");
    reveal_strlit("\")");
    let s = function_text(FunctionView::FileRegex(p, r));
    let n = p.len() as int;
    let m = r.len() as int;
    let k = plain_prefix_len(r) as int;
    let stops = non_regex_path_stops();
    assert(s.len() == 6 + n + 1 + m + 2);
    lemma_tag_present(s, 0, "file(\""@);
    assert forall|j: int| 0 <= j < n implies s[6 + j] == #[trigger] p[j] by {}
    assert(s[6 + n] == '/');
    assert forall|j: int| 0 <= j < m implies s[6 + n + 1 + j] == #[trigger] r[j] by {}
    assert(s[6 + n + 1 + m] == '"');
    lemma_span_facts(r, 0, stops);
    assert(!stops.contains('/')) by {
        if stops.contains('/') {
            let j = choose|j: int| 0 <= j < stops.len() && stops[j] == '/';
            assert(false);
        }
    }
    assert forall|j: int| 6 <= j < 6 + n + 1 + k implies !stops.contains(#[trigger] s[j]) by {
        if j < 6 + n {
            assert(s[j] == p[j - 6]);
        } else if j > 6 + n {
            assert(s[j] == r[j - 7 - n]);
        }
    }
    assert(s[6 + n + 1 + k] == r[k]);
    lemma_span_not_in(s, 6, n + 1 + k, stops);
    assert(s.subrange(6, 6 + n + 1 + k) =~= p + "/"@ + r.take(k));
    assert(r[k] != '"') by {
        assert(regex_path_stops()[0] == '"');
    }
    lemma_tag_absent(s, 6 + n + 1 + k, "\")"@, 0);
    assert(framed_path(s, 0, "file(\""@) is Backtrack);
    lemma_regex_path_reads(s, 6, p, r);
    lemma_tag_present(s, 6 + n + 1 + m, "\")"@);
    lemma_function_reads_file_regex(s, s.len(), p, anchored(r));
}

/// The text of a `filename_version` function of a plain path, a written
/// regex with one capture group and a version without double quotes parses
/// back, whole, as that function with its regex anchored.
proof fn lemma_filename_version_reads_back(p: Seq<char>, r: Seq<char>, v: Seq<char>, c: ComparisonOperator)
    requires
        plain_path(p),
        written_regex(r),
        regex_captures_len(anchored(r), true) == 2,
        plain_version(v),
    ensures
        function(function_text(FunctionView::FilenameVersion(p, r, v, c)), 0) == Parsed::Done(
            function_text(FunctionView::FilenameVersion(p, r, v, c)).len(),
            FunctionView::FilenameVersion(p, anchored(r), v, c),
        ),
{
    reveal_strlit("filename_version(\"");
    reveal_strlit("filename_version(");
    reveal_strlit("is_master(\"");
    reveal_strlit("many(\"");
    reveal_strlit("many_active(\"");
    reveal_strlit("version(");
    reveal_strlit("product_version(");
    reveal_strlit("file(\"");
    reveal_strlit("file_size(");
    reveal_strlit("readable(\"");
    reveal_strlit("is_executable(\"");
    reveal_strlit("active(\"");
    reveal_strlit("/");
    reveal_strlit("\", \"");
    reveal_strlit("\", ");
    reveal_strlit(")");
    reveal_strlit("==");
    reveal_strlit("!=");
    reveal_strlit("<=");
    reveal_strlit(">=");
    reveal_strlit("<");
    reveal_strlit(">");
    let s = function_text(FunctionView::FilenameVersion(p, r, v, c));
    let o = operator_text(c);
    let n = p.len() as int;
    let m = r.len() as int;
    let vl = v.len() as int;
    let ol = o.len() as int;
    assert(s.len() == 27 + n + m + vl + ol);
    lemma_tag_absent(s, 0, "file(\""@, 4);
    lemma_tag_absent(s, 0, "file_size("@, 4);
    lemma_tag_absent(s, 0, "readable(\""@, 0);
    lemma_tag_absent(s, 0, "is_executable(\""@, 0);
    lemma_tag_absent(s, 0, "active(\""@, 0);
    lemma_head_alternatives_skipped(s);
    lemma_tag_absent(s, 0, "is_master(\""@, 0);
    lemma_tag_absent(s, 0, "many(\""@, 0);
    lemma_tag_absent(s, 0, "many_active(\""@, 0);
    lemma_tag_absent(s, 0, "version("@, 0);
    lemma_tag_absent(s, 0, "product_version("@, 0);
    assert forall|k: int| 0 <= k < 17 implies s[k] == #[trigger] "filename_version("@[k] by {
        assert(s[k] == "filename_version(\""@[k]);
    }
    lemma_tag_present(s, 0, "filename_version("@);
    assert(s[17] == '"');
    lemma_tag_present(s, 17, quote());
    assert forall|k: int| 0 <= k < n implies s[18 + k] == #[trigger] p[k] by {}
    assert(s[18 + n] == '/');
    assert forall|k: int| 0 <= k < m implies s[18 + n + 1 + k] == #[trigger] r[k] by {}
    assert(s[19 + n + m] == '"');
    lemma_regex_path_reads(s, 18, p, r);
    lemma_tag_present(s, 19 + n + m, quote());
    assert(s[20 + n + m] == ',');
    assert(s[21 + n + m] == ' ');
    assert(s[22 + n + m] == '"');
    lemma_comma_reads(s, 20 + n + m);
    assert forall|k: int| 0 <= k < vl implies s[22 + n + m + 1 + k] == #[trigger] v[k] by {}
    assert(s[23 + n + m + vl] == '"');
    lemma_version_string_reads(s, 22 + n + m, v);
    assert(s[24 + n + m + vl] == ',');
    assert(s[25 + n + m + vl] == ' ');
    assert forall|k: int| 0 <= k < ol implies s[26 + n + m + vl + k] == #[trigger] o[k] by {}
    assert(s[26 + n + m + vl + ol] == ')');
    assert(s[26 + n + m + vl] != ' ' && s[26 + n + m + vl] != '\t') by {
        assert(s[26 + n + m + vl] == o[0]);
    }
    lemma_comma_reads(s, 24 + n + m + vl);
    lemma_operator_reads(s, 26 + n + m + vl, c);
    assert(filename_version_args(s, 17) == Parsed::Done(
        (n + m + vl + ol + 9) as nat,
        (p, anchored(r), v, c),
    ));
    lemma_tag_present(s, 26 + n + m + vl + ol, ")"@);
    lemma_tail_reads_filename_version(s, (n + m + vl + ol + 9) as nat, p, anchored(r), v, c);
}

proof fn lemma_tail_reads_description(s: Seq<char>, k: nat, p: Seq<char>, r: Seq<char>)
    requires
        tag(s, 0, "is_master(\""@) is None,
        tag(s, 0, "many(\""@) is None,
        tag(s, 0, "many_active(\""@) is None,
        tag(s, 0, "version("@) is None,
        tag(s, 0, "product_version("@) is None,
        tag(s, 0, "filename_version("@) is None,
        tag(s, 0, "checksum("@) is None,
        tag(s, 0, "description_contains("@) == Some(21nat),
        description_contains_args(s, 21) == Parsed::Done(k, (p, r)),
        tag(s, 21 + k as int, ")"@) == Some(1nat),
    ensures
        function_tail(s, 0) == Parsed::Done(k + 22, FunctionView::DescriptionContains(p, r)),
{
    reveal(function_tail);
}

/// The text of a `description_contains` function of a plain path and a
/// regex without double quotes that compiles parses back, whole, as that
/// function.
proof fn lemma_description_reads_back(p: Seq<char>, r: Seq<char>)
    requires
        plain_path(p),
        plain_version(r),
        regex_problem(r) is None,
    ensures
        function(function_text(FunctionView::DescriptionContains(p, r)), 0) == Parsed::Done(
            function_text(FunctionView::DescriptionContains(p, r)).len(),
            FunctionView::DescriptionContains(p, r),
        ),
{
    reveal_strlit("description_contains(\"");
    reveal_strlit("description_contains(");
    reveal_strlit("is_master(\"");
    reveal_strlit("many(\"");
    reveal_strlit("many_active(\"");
    reveal_strlit("version(");
    reveal_strlit("product_version(");
    reveal_strlit("filename_version(");
    reveal_strlit("checksum(");
    reveal_strlit("\", \"");
    reveal_strlit("\")");
    reveal_strlit(")");
    let s = function_text(FunctionView::DescriptionContains(p, r));
    let n = p.len() as int;
    let m = r.len() as int;
    assert(s.len() == 22 + n + 4 + m + 2);
    assert(s[0] == 'd');
    lemma_function_reads_tail(s);
    lemma_tag_absent(s, 0, "is_master(\""@, 0);
    lemma_tag_absent(s, 0, "many(\""@, 0);
    lemma_tag_absent(s, 0, "many_active(\""@, 0);
    lemma_tag_absent(s, 0, "version("@, 0);
    lemma_tag_absent(s, 0, "product_version("@, 0);
    lemma_tag_absent(s, 0, "filename_version("@, 0);
    lemma_tag_absent(s, 0, "checksum("@, 0);
    assert forall|k: int| 0 <= k < 21 implies s[k] == #[trigger] "description_contains("@[k] by {
        assert(s[k] == "description_contains(\""@[k]);
    }
    lemma_tag_present(s, 0, "description_contains("@);
    assert(s[21] == '"');
    assert forall|k: int| 0 <= k < n implies s[21 + 1 + k] == #[trigger] p[k] by {}
    assert(s[22 + n] == '"');
    assert(s[23 + n] == ',');
    assert(s[24 + n] == ' ');
    assert(s[25 + n] == '"');
    lemma_quoted_path_reads(s, 21, p);
    lemma_comma_reads(s, 23 + n);
    lemma_tag_present(s, 25 + n, quote());
    assert forall|k: int| 0 <= k < m implies s[25 + n + 1 + k] == #[trigger] r[k] by {}
    assert(s[26 + n + m] == '"');
    assert forall|k: int| 26 + n <= k < 26 + n + m implies !quote().contains(#[trigger] s[k]) by {
        assert(s[k] == r[k - 26 - n]);
        if quote().contains(s[k]) {
            assert(quote()[0] == s[k]);
        }
    }
    assert(quote().contains(s[26 + n + m])) by {
        assert(quote()[0] == '"');
    }
    lemma_span_not_in(s, 26 + n, m, quote());
    assert(s.subrange(26 + n, 26 + n + m) =~= r);
    lemma_tag_present(s, 26 + n + m, quote());
    assert(description_contains_args(s, 21) == Parsed::Done((n + 6 + m) as nat, (p, r)));
    lemma_tag_present(s, 27 + n + m, ")"@);
    lemma_tail_reads_description(s, (n + 6 + m) as nat, p, r);
}

/// Whether a function's text is read back by the parser as the function:
/// - `file`, `readable`, `is_executable`, `active`, `is_master`, `checksum`
///   and `file_size` functions of a plain path;
/// - `version` and `product_version` functions of a plain path and a version
///   without double quotes;
/// - `many` functions of a plain path and a written regex, and
///   `many_active` functions of a regex without `"`, `<` or `>` that
///   compiles anchored;
/// - `file` and `active` functions of a regex that is not read as a plain
///   path;
/// - `filename_version` functions of a plain path, a written regex with one
///   capture group and a version without double quotes;
/// - `description_contains` functions of a plain path and a regex without
///   double quotes that compiles.
pub open spec fn reads_back(f: FunctionView) -> bool {
    match f {
        FunctionView::FilePath(p) => plain_path(p),
        FunctionView::FileRegex(p, r) => written_file_regex(p, r),
        FunctionView::FileSize(p, _) => plain_path(p),
        FunctionView::Readable(p) => plain_path(p),
        FunctionView::IsExecutable(p) => plain_path(p),
        FunctionView::ActivePath(p) => plain_path(p),
        FunctionView::ActiveRegex(r) => written_active_regex(r),
        FunctionView::IsMaster(p) => plain_path(p),
        FunctionView::Many(p, r) => plain_path(p) && written_regex(r),
        FunctionView::ManyActive(r) => r.len() > 0 && (forall|k: int|
            0 <= k < r.len() ==> !regex_path_stops().contains(#[trigger] r[k])) && regex_problem(
            anchored(r),
        ) is None,
        FunctionView::Checksum(p, _) => plain_path(p),
        FunctionView::Version(p, v, _) => plain_path(p) && plain_version(v),
        FunctionView::ProductVersion(p, v, _) => plain_path(p) && plain_version(v),
        FunctionView::FilenameVersion(p, r, v, _) => plain_path(p) && written_regex(r)
            && regex_captures_len(anchored(r), true) == 2 && plain_version(v),
        FunctionView::DescriptionContains(p, r) => plain_path(p) && plain_version(r)
            && regex_problem(r) is None,
    }
}

/// What the parser gives for a function's text: the function, with each
/// regex that has to match whole file names anchored as the parser anchors
/// it.
pub open spec fn as_read_back(f: FunctionView) -> FunctionView {
    match f {
        FunctionView::FileRegex(p, r) => FunctionView::FileRegex(p, anchored(r)),
        FunctionView::ActiveRegex(r) => FunctionView::ActiveRegex(anchored(r)),
        FunctionView::Many(p, r) => FunctionView::Many(p, anchored(r)),
        FunctionView::ManyActive(r) => FunctionView::ManyActive(anchored(r)),
        FunctionView::FilenameVersion(p, r, v, c) => FunctionView::FilenameVersion(
            p,
            anchored(r),
            v,
            c,
        ),
        _ => f,
    }
}

/// The text written for a function parses back, whole, as that function,
/// its regexes anchored to whole names as the parser anchors them (see
/// `reads_back` for the functions this covers).
pub proof fn lemma_function_text_reads_back(f: FunctionView)
    requires
        reads_back(f),
    ensures
        function(function_text(f), 0) == Parsed::Done(function_text(f).len(), as_read_back(f)),
{
    match f {
        FunctionView::Checksum(p, c) => lemma_checksum_function_reads_back(p, c),
        FunctionView::FileSize(p, size) => lemma_file_size_function_reads_back(p, size),
        FunctionView::Version(..) => lemma_version_function_reads_back(f),
        FunctionView::ProductVersion(..) => lemma_version_function_reads_back(f),
        FunctionView::FileRegex(p, r) => lemma_file_regex_reads_back(p, r),
        FunctionView::ActiveRegex(r) => lemma_active_regex_reads_back(r),
        FunctionView::Many(p, r) => lemma_many_reads_back(p, r),
        FunctionView::ManyActive(r) => lemma_many_active_reads_back(r),
        FunctionView::FilenameVersion(p, r, v, c) => lemma_filename_version_reads_back(p, r, v, c),
        FunctionView::DescriptionContains(p, r) => lemma_description_reads_back(p, r),
        _ => lemma_path_function_reads_back(f),
    }
}

} // verus!
