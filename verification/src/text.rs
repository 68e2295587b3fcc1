//! The texts that bundles are shown under.

use vstd::prelude::*;

verus! {

/// The decimal digit `d`.
pub open spec fn digit(d: nat) -> char
    recommends
        d < 10,
{
    seq!['0', '1', '2', '3', '4', '5', '6', '7', '8', '9'][d as int]
}

/// `n` in decimal notation, without leading zeros.
pub open spec fn decimal(n: nat) -> Seq<char>
    decreases n,
{
    if n < 10 {
        seq![digit(n)]
    } else {
        decimal(n / 10).push(digit(n % 10))
    }
}

fn digit_text(d: usize) -> (text: &'static str)
    requires
        d < 10,
    ensures
        text@ == seq![digit(d as nat)],
{
    proof {
        reveal_strlit("0");
        reveal_strlit("1");
        reveal_strlit("2");
        reveal_strlit("3");
        reveal_strlit("4");
        reveal_strlit("5");
        reveal_strlit("6");
        reveal_strlit("7");
        reveal_strlit("8");
        reveal_strlit("9");
    }
    match d {
        0 => "0",
        1 => "1",
        2 => "2",
        3 => "3",
        4 => "4",
        5 => "5",
        6 => "6",
        7 => "7",
        8 => "8",
        _ => "9",
    }
}

/// Writes `n` in decimal notation.
pub fn decimal_text(n: usize) -> (text: String)
    ensures
        text@ == decimal(n as nat),
    decreases n,
{
    if n < 10 {
        digit_text(n).to_owned()
    } else {
        let mut text = decimal_text(n / 10);
        text.append(digit_text(n % 10));
        text
    }
}

/// `n` things, in words: `one` for a single one, and else the number followed by `many`.
pub open spec fn counted(n: nat, one: Seq<char>, many: Seq<char>) -> Seq<char> {
    if n == 1 {
        one
    } else {
        decimal(n) + many
    }
}

/// What the header of a bundle of `thoughts` thinking blocks and `calls` tool calls reads.
pub open spec fn label(thoughts: nat, calls: nat) -> Seq<char> {
    let blocks = counted(thoughts, "1 thinking block"@, " thinking blocks"@);
    let tools = counted(calls, "1 tool call"@, " tool calls"@);
    if thoughts == 0 {
        tools
    } else if calls == 0 {
        blocks
    } else {
        blocks + " · "@ + tools
    }
}

fn counted_text(n: usize, one: &str, many: &str) -> (text: String)
    ensures
        text@ == counted(n as nat, one@, many@),
{
    if n == 1 {
        one.to_owned()
    } else {
        decimal_text(n).concat(many)
    }
}

/// The label of a bundle.
pub fn bundle_label(thought_count: usize, tool_call_count: usize) -> (text: String)
    ensures
        text@ == label(thought_count as nat, tool_call_count as nat),
{
    let blocks = counted_text(thought_count, "1 thinking block", " thinking blocks");
    let tools = counted_text(tool_call_count, "1 tool call", " tool calls");
    if thought_count == 0 {
        tools
    } else if tool_call_count == 0 {
        blocks
    } else {
        blocks.concat(" · ").concat(tools.as_str())
    }
}

/// Different numbers read differently.
pub proof fn decimal_tells_numbers_apart(a: nat, b: nat)
    ensures
        decimal(a) == decimal(b) ==> a == b,
    decreases a + b,
{
    if decimal(a) == decimal(b) {
        assert(decimal(a).last() == digit(a % 10));
        assert(decimal(b).last() == digit(b % 10));
        digit_tells_numbers_apart(a % 10, b % 10);
        decimal_is_not_empty(a / 10);
        decimal_is_not_empty(b / 10);
        if a >= 10 && b >= 10 {
            assert(decimal(a).drop_last() =~= decimal(a / 10));
            assert(decimal(b).drop_last() =~= decimal(b / 10));
            decimal_tells_numbers_apart(a / 10, b / 10);
        }
    }
}

proof fn decimal_is_not_empty(n: nat)
    ensures
        decimal(n).len() > 0,
{
}

proof fn digit_tells_numbers_apart(a: nat, b: nat)
    requires
        a < 10,
        b < 10,
        digit(a) == digit(b),
    ensures
        a == b,
{
    let digits = seq!['0', '1', '2', '3', '4', '5', '6', '7', '8', '9'];
    assert forall|i: int| 0 <= i < 10 implies #[trigger] digits[i] as int == '0' as int + i by {}
    assert(digits[a as int] == digits[b as int]);
}

/// The number that some digits read.
pub open spec fn number(digits: Seq<char>) -> int
    decreases digits.len(),
{
    if digits.len() == 0 {
        0
    } else {
        10 * number(digits.drop_last()) + (digits.last() as int - '0' as int)
    }
}

/// Decimal notation is made of digits, reads as the number that it stands for, and has no leading
/// zero: it is empty for no number, and a zero stands first only where it stands alone.
pub proof fn decimal_reads_back(n: nat)
    ensures
        number(decimal(n)) == n,
        decimal(n).len() > 0,
        forall|i: int|
            0 <= i < decimal(n).len() ==> '0' as int <= #[trigger] decimal(n)[i] as int <= '9' as int,
        decimal(n)[0] == '0' ==> n == 0 && decimal(n).len() == 1,
    decreases n,
{
    reveal_with_fuel(number, 2);
    let digits = seq!['0', '1', '2', '3', '4', '5', '6', '7', '8', '9'];
    assert forall|i: int| 0 <= i < 10 implies #[trigger] digits[i] as int == '0' as int + i by {}
    assert(digit(n % 10) == digits[(n % 10) as int]);
    if n < 10 {
        assert(decimal(n).drop_last() =~= Seq::<char>::empty());
    } else {
        decimal_reads_back(n / 10);
        assert(decimal(n).drop_last() =~= decimal(n / 10));
        assert(decimal(n)[0] == decimal(n / 10)[0]);
    }
}

/// What is written for a number reads as that number, without leading zeros.
pub proof fn written_numbers_read_back(n: usize, text: String)
    requires
        call_ensures(decimal_text, (n,), text),
    ensures
        number(text@) == n,
        text@.len() > 0,
        forall|i: int|
            0 <= i < text@.len() ==> '0' as int <= #[trigger] text@[i] as int <= '9' as int,
        text@[0] == '0' ==> text@.len() == 1,
{
    decimal_reads_back(n as nat);
}

/// A bundle without thoughts is labelled with the number of its tool calls, one without tool calls
/// with the number of its thinking blocks, in words that go with the number.
pub proof fn labels_count_one_thing(n: nat)
    ensures
        label(0, 1) == "1 tool call"@,
        n != 1 ==> label(0, n) == decimal(n) + " tool calls"@,
        label(1, 0) == "1 thinking block"@,
        n > 1 ==> label(n, 0) == decimal(n) + " thinking blocks"@,
{
}

/// A bundle with thoughts and tool calls is labelled with both: with what its label would be without
/// the tool calls, and then with what it would be without the thoughts.
pub proof fn labels_join_both_counts(thoughts: nat, calls: nat)
    requires
        thoughts > 0,
        calls > 0,
    ensures
        label(thoughts, calls) == label(thoughts, 0) + " · "@ + label(0, calls),
{
}

/// The same of the texts that are written: the label of a bundle with thoughts and tool calls joins
/// the labels of two bundles that have one of these each.
pub proof fn written_labels_join_both_counts(
    thoughts: usize,
    calls: usize,
    both: String,
    blocks: String,
    tools: String,
)
    requires
        thoughts > 0,
        calls > 0,
        call_ensures(bundle_label, (thoughts, calls), both),
        call_ensures(bundle_label, (thoughts, 0usize), blocks),
        call_ensures(bundle_label, (0usize, calls), tools),
    ensures
        both@ == blocks@ + " · "@ + tools@,
        blocks@ == if thoughts == 1 {
            "1 thinking block"@
        } else {
            decimal(thoughts as nat) + " thinking blocks"@
        },
        tools@ == if calls == 1 {
            "1 tool call"@
        } else {
            decimal(calls as nat) + " tool calls"@
        },
{
}

/// The label of a bundle without thoughts, in words that go with the number.
pub proof fn written_labels_count_tool_calls(calls: usize, text: String)
    requires
        call_ensures(bundle_label, (0usize, calls), text),
    ensures
        text@ == if calls == 1 {
            "1 tool call"@
        } else {
            decimal(calls as nat) + " tool calls"@
        },
{
}

/// What stands before and behind the number of things in a text that begins with that number: `rest`
/// begins with a character that is no digit, so the number can be told from it.
proof fn leading_number_is_known(a: nat, b: nat, rest_a: Seq<char>, rest_b: Seq<char>)
    requires
        rest_a.len() > 0,
        rest_b.len() > 0,
        rest_a[0] == ' ',
        rest_b[0] == ' ',
        decimal(a) + rest_a == decimal(b) + rest_b,
    ensures
        a == b,
        rest_a == rest_b,
{
    decimal_reads_back(a);
    decimal_reads_back(b);
    let (x, y) = (decimal(a), decimal(b));
    if x.len() < y.len() {
        assert((x + rest_a)[x.len() as int] == ' ');
        assert((y + rest_b)[x.len() as int] == y[x.len() as int]);
    } else if y.len() < x.len() {
        assert((y + rest_b)[y.len() as int] == ' ');
        assert((x + rest_a)[y.len() as int] == x[y.len() as int]);
    }
    assert(x =~= (x + rest_a).take(x.len() as int));
    assert(y =~= (y + rest_b).take(y.len() as int));
    assert(rest_a =~= (x + rest_a).skip(x.len() as int));
    assert(rest_b =~= (y + rest_b).skip(y.len() as int));
    decimal_tells_numbers_apart(a, b);
}

/// What follows the number in the text of a count.
spec fn words(n: nat, one: Seq<char>, many: Seq<char>) -> Seq<char> {
    if n == 1 {
        one.skip(1)
    } else {
        many
    }
}

proof fn counted_begins_with_its_number(n: nat, one: Seq<char>, many: Seq<char>)
    requires
        one.len() > 0,
        one[0] == '1',
    ensures
        counted(n, one, many) == decimal(n) + words(n, one, many),
{
    if n == 1 {
        assert(one =~= seq!['1'] + one.skip(1));
        assert(decimal(1) =~= seq!['1']);
    }
}

/// Bundles with different counts have different labels.
pub proof fn labels_tell_counts_apart(thoughts: nat, calls: nat, others: nat, other_calls: nat)
    ensures
        label(thoughts, calls) == label(others, other_calls) ==> thoughts == others && calls
            == other_calls,
{
    if label(thoughts, calls) == label(others, other_calls) {
        let rest_a = behind_number(thoughts, calls);
        let rest_b = behind_number(others, other_calls);
        let a = if thoughts == 0 { calls } else { thoughts };
        let b = if others == 0 { other_calls } else { others };
        label_begins_with_a_number(thoughts, calls);
        label_begins_with_a_number(others, other_calls);
        leading_number_is_known(a, b, rest_a, rest_b);
        // The first letters tell thinking blocks from tool calls.
        assert(rest_a[2] == rest_b[2]);
        if thoughts > 0 {
            same_ends_are_same(thoughts, calls, other_calls);
        }
    }
}

proof fn label_begins_with_a_number(thoughts: nat, calls: nat)
    ensures
        label(thoughts, calls) == decimal(if thoughts == 0 { calls } else { thoughts })
            + behind_number(thoughts, calls),
        behind_number(thoughts, calls).len() > 2,
        behind_number(thoughts, calls)[0] == ' ',
        behind_number(thoughts, calls)[2] == (if thoughts == 0 { 'o' } else { 'h' }),
{
    reveal_strlit("1 thinking block");
    reveal_strlit(" thinking blocks");
    reveal_strlit("1 tool call");
    reveal_strlit(" tool calls");
    counted_begins_with_its_number(thoughts, "1 thinking block"@, " thinking blocks"@);
    counted_begins_with_its_number(calls, "1 tool call"@, " tool calls"@);
    assert(label(thoughts, calls) =~= decimal(if thoughts == 0 { calls } else { thoughts })
        + behind_number(thoughts, calls));
}

proof fn same_ends_are_same(thoughts: nat, calls: nat, other_calls: nat)
    requires
        thoughts > 0,
        behind_number(thoughts, calls) == behind_number(thoughts, other_calls),
    ensures
        calls == other_calls,
{
    let start = words(thoughts, "1 thinking block"@, " thinking blocks"@);
    let words_a = words(calls, "1 tool call"@, " tool calls"@);
    let words_b = words(other_calls, "1 tool call"@, " tool calls"@);
    assert(words_a.len() > 0 && words_a[0] == ' ' && words_b.len() > 0 && words_b[0] == ' ') by {
        reveal_strlit("1 tool call");
        reveal_strlit(" tool calls");
    }
    let x = decimal(calls) + words_a;
    let y = decimal(other_calls) + words_b;
    let dot = " · "@;
    if calls > 0 && other_calls > 0 {
        ends_agree(start, dot, x, y);
        leading_number_is_known(calls, other_calls, words_a, words_b);
    } else if calls > 0 {
        assert((start + dot + x).len() > start.len());
    } else if other_calls > 0 {
        assert((start + dot + y).len() > start.len());
    }
}

proof fn ends_agree(start: Seq<char>, dot: Seq<char>, x: Seq<char>, y: Seq<char>)
    requires
        start + dot + x == start + dot + y,
    ensures
        x == y,
{
    let n = (start + dot).len() as int;
    assert(x =~= (start + dot + x).skip(n));
    assert(y =~= (start + dot + y).skip(n));
}

/// What follows the number at the beginning of a label.
spec fn behind_number(thoughts: nat, calls: nat) -> Seq<char> {
    let blocks = words(thoughts, "1 thinking block"@, " thinking blocks"@);
    let tools = words(calls, "1 tool call"@, " tool calls"@);
    if thoughts == 0 {
        tools
    } else if calls == 0 {
        blocks
    } else {
        blocks + " · "@ + (decimal(calls) + tools)
    }
}

} // verus!
