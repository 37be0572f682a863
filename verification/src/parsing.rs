use vstd::prelude::*;
use vstd::string::StrSliceExecFns;
use vstd::string::StringExecFns;

use crate::logic_gates::Gate;
use crate::logic_gates::LogicGate;
use crate::logic_gates::UnknownLogicGateError;
use crate::logic_gates::and_eval;
use crate::logic_gates::and_symbol_text;
use crate::logic_gates::or_eval;
use crate::logic_gates::or_symbol_text;

verus! {

/// The text with each ASCII space dropped; everything else, newlines
/// included, stays where it was.
pub open spec fn strip_spaces(s: Seq<char>) -> Seq<char>
    decreases s.len(),
{
    if s.len() == 0 {
        Seq::empty()
    } else if s.last() == ' ' {
        strip_spaces(s.drop_last())
    } else {
        strip_spaces(s.drop_last()).push(s.last())
    }
}

/// Drops each ASCII space from the text. No other character moves or
/// disappears, newlines included.
pub fn remove_spaces_from(s: &str) -> (result: String)
    ensures
        result@ == strip_spaces(s@),
{
    let n = s.unicode_len();
    let mut result = String::new();
    let mut i: usize = 0;
    while i < n
        invariant
            i <= n,
            n == s@.len(),
            result@ == strip_spaces(s@.take(i as int)),
        decreases n - i,
    {
        let c = s.get_char(i);
        proof {
            assert(s@.take(i + 1).drop_last() =~= s@.take(i as int));
            assert(s@.take(i + 1).last() == s@[i as int]);
        }
        if c != ' ' {
            let piece = s.substring_char(i, i + 1);
            proof {
                assert(piece@ =~= seq![s@[i as int]]);
                assert(result@ + piece@ =~= strip_spaces(s@.take(i as int)).push(s@[i as int]));
            }
            result.append(piece);
        }
        i = i + 1;
    }
    proof {
        assert(s@.take(n as int) =~= s@);
    }
    result
}

/// No space character survives stripping.
pub proof fn lemma_strip_spaces_no_spaces(s: Seq<char>)
    ensures
        forall|i: int| 0 <= i < strip_spaces(s).len() ==> strip_spaces(s)[i] != ' ',
    decreases s.len(),
{
    if s.len() > 0 {
        lemma_strip_spaces_no_spaces(s.drop_last());
        if s.last() != ' ' {
            let stripped = strip_spaces(s.drop_last()).push(s.last());
            assert forall|i: int| 0 <= i < stripped.len() implies stripped[i] != ' ' by {
                if i < stripped.len() - 1 {
                    assert(stripped[i] == strip_spaces(s.drop_last())[i]);
                }
            }
        }
    }
}

/// Stripping a sequence that holds no space leaves it unchanged.
pub proof fn lemma_strip_spaces_noop(s: Seq<char>)
    requires
        forall|i: int| 0 <= i < s.len() ==> s[i] != ' ',
    ensures
        strip_spaces(s) == s,
    decreases s.len(),
{
    if s.len() == 0 {
        assert(strip_spaces(s) =~= s);
    } else {
        lemma_strip_spaces_noop(s.drop_last());
        assert(strip_spaces(s) =~= s.drop_last().push(s.last()));
        assert(s.drop_last().push(s.last()) =~= s);
    }
}

/// Stripping is idempotent: a second pass over stripped text changes
/// nothing.
pub proof fn lemma_strip_spaces_idempotent(s: Seq<char>)
    ensures
        strip_spaces(strip_spaces(s)) == strip_spaces(s),
{
    lemma_strip_spaces_no_spaces(s);
    lemma_strip_spaces_noop(strip_spaces(s));
}

/// Everything that can go wrong between raw text and a boolean result.
#[derive(Debug)]
pub enum ExpressionError {
    /// Gate resolution saw an operator text it does not recognise.
    UnknownGate(UnknownLogicGateError),
    /// A digit run the grammar needs is absent, or denotes a number too
    /// large for a signed byte.
    ParseFailure,
    /// Evaluation was asked for although no operator was matched.
    MissingOperator,
}

pub open spec fn is_open_delim_char(c: char) -> bool {
    c == '(' || c == '[' || c == '{' || c == '<'
}

pub open spec fn is_close_delim_char(c: char) -> bool {
    c == ')' || c == ']' || c == '}' || c == '>'
}

pub open spec fn is_operator_char(c: char) -> bool {
    c == '+' || c == '.'
}

/// A decimal digit: a character between `0` (code 48) and `9` (code 57).
pub open spec fn is_digit_char(c: char) -> bool {
    48 <= c as u32 && c as u32 <= 57
}

pub open spec fn digit_value(c: char) -> int {
    c as u32 - 48
}

/// The first position at or after `from` that does not hold a decimal digit.
pub open spec fn digit_run_end(s: Seq<char>, from: int) -> int
    recommends
        0 <= from <= s.len(),
    decreases s.len() - from,
{
    if 0 <= from && from < s.len() && is_digit_char(s[from]) {
        digit_run_end(s, from + 1)
    } else {
        from
    }
}

/// The number a run of decimal digits denotes.
pub open spec fn digits_value(s: Seq<char>) -> int
    decreases s.len(),
{
    if s.len() == 0 {
        0
    } else {
        digits_value(s.drop_last()) * 10 + digit_value(s.last())
    }
}

/// Where the first operand starts: after an optional opening delimiter.
pub open spec fn first_operand_start(s: Seq<char>) -> int {
    if s.len() > 0 && is_open_delim_char(s[0]) {
        1
    } else {
        0
    }
}

pub open spec fn first_operand_end(s: Seq<char>) -> int {
    digit_run_end(s, first_operand_start(s))
}

/// Whether an operator symbol stands right after the first operand.
pub open spec fn has_operator(s: Seq<char>) -> bool {
    first_operand_end(s) < s.len() && is_operator_char(s[first_operand_end(s)])
}

pub open spec fn second_operand_start(s: Seq<char>) -> int {
    if has_operator(s) {
        first_operand_end(s) + 1
    } else {
        first_operand_end(s)
    }
}

pub open spec fn second_operand_end(s: Seq<char>) -> int {
    digit_run_end(s, second_operand_start(s))
}

pub open spec fn first_operand_text(s: Seq<char>) -> Seq<char> {
    s.subrange(first_operand_start(s), first_operand_end(s))
}

pub open spec fn second_operand_text(s: Seq<char>) -> Seq<char> {
    s.subrange(second_operand_start(s), second_operand_end(s))
}

/// The grammar matches: both digit runs are non-empty and both operands fit
/// a signed byte. Trailing input past the closing delimiter is ignored.
pub open spec fn parse_ok(s: Seq<char>) -> bool {
    &&& first_operand_end(s) > first_operand_start(s)
    &&& second_operand_end(s) > second_operand_start(s)
    &&& digits_value(first_operand_text(s)) <= 127
    &&& digits_value(second_operand_text(s)) <= 127
}

/// The operator character the grammar matched, if one was present.
pub open spec fn parsed_operator(s: Seq<char>) -> Option<char> {
    if has_operator(s) {
        Some(s[first_operand_end(s)])
    } else {
        None
    }
}

/// The two operands the grammar matched, in order.
pub open spec fn parsed_members(s: Seq<char>) -> Seq<i8> {
    seq![
        digits_value(first_operand_text(s)) as i8,
        digits_value(second_operand_text(s)) as i8,
    ]
}

/// Basic facts about where a digit run ends.
pub proof fn lemma_digit_run_end_properties(s: Seq<char>, from: int)
    requires
        0 <= from <= s.len(),
    ensures
        from <= digit_run_end(s, from) <= s.len(),
        digit_run_end(s, from) == s.len() || !is_digit_char(s[digit_run_end(s, from)]),
        forall|k: int| from <= k < digit_run_end(s, from) ==> is_digit_char(s[k]),
    decreases s.len() - from,
{
    if from < s.len() && is_digit_char(s[from]) {
        lemma_digit_run_end_properties(s, from + 1);
    }
}

/// A successful parse always carries an operator: the first digit run is
/// maximal, so without an operator the second run would be empty.
pub proof fn lemma_parse_ok_has_operator(s: Seq<char>)
    requires
        parse_ok(s),
    ensures
        has_operator(s),
{
    lemma_digit_run_end_properties(s, first_operand_start(s));
    if !has_operator(s) {
        assert(digit_run_end(s, first_operand_end(s)) == first_operand_end(s));
    }
}

/// The operand value a digit run denotes, capped just past the largest
/// signed-byte value so that an executable accumulator can track it.
spec fn capped_digits_value(s: Seq<char>) -> int {
    if digits_value(s) > 127 {
        128
    } else {
        digits_value(s)
    }
}

/// Scans the maximal run of decimal digits starting at `from`, returning
/// where it ends and the capped value of the run.
fn scan_digit_run(s: &str, from: usize, n: usize) -> (result: (usize, u32))
    requires
        n == s@.len(),
        from <= n,
    ensures
        result.0 == digit_run_end(s@, from as int),
        from <= result.0 <= n,
        result.1 == capped_digits_value(s@.subrange(from as int, result.0 as int)),
{
    let mut i: usize = from;
    let mut acc: u32 = 0;
    proof {
        assert(s@.subrange(from as int, from as int) =~= Seq::empty());
    }
    loop
        invariant
            from <= i <= n,
            n == s@.len(),
            digit_run_end(s@, from as int) == digit_run_end(s@, i as int),
            acc == capped_digits_value(s@.subrange(from as int, i as int)),
            acc <= 128,
        ensures
            i == digit_run_end(s@, from as int),
            from <= i <= n,
            acc == capped_digits_value(s@.subrange(from as int, i as int)),
        decreases n - i,
    {
        if i >= n {
            proof {
                assert(digit_run_end(s@, i as int) == i);
            }
            break;
        }
        let c = s.get_char(i);
        let u = c as u32;
        if !(48 <= u && u <= 57) {
            proof {
                assert(!is_digit_char(s@[i as int]));
                assert(digit_run_end(s@, i as int) == i);
            }
            break;
        }
        proof {
            assert(is_digit_char(s@[i as int]));
            let prefix = s@.subrange(from as int, i as int);
            let extended = s@.subrange(from as int, i + 1);
            assert(extended.drop_last() =~= prefix);
            assert(extended.last() == s@[i as int]);
        }
        let d = u - 48;
        let next = acc * 10 + d;
        acc = if next > 128 {
            128
        } else {
            next
        };
        i = i + 1;
    }
    (i, acc)
}

/// How a stored operator symbol corresponds to the operator character the
/// grammar matched.
pub open spec fn operator_matches(sym: Option<String>, op: Option<char>) -> bool {
    match (sym, op) {
        (Option::None, Option::None) => true,
        (Option::Some(t), Option::Some(c)) => t@ == seq![c],
        _ => false,
    }
}

/// The optional operator symbol of an expression, as the grammar stored it.
#[derive(Debug)]
pub struct BooleanOperation {
    pub operation_symbol: Option<String>,
}

/// The structured result of parsing: the raw text that was parsed, the two
/// operands in order, and the optional operator.
#[derive(Debug)]
pub struct BooleanExpression {
    pub raw: String,
    pub members: Vec<i8>,
    pub operation: BooleanOperation,
}

/// Parses one boolean expression at the start of the input: an optional
/// opening delimiter, a digit run, an optional operator symbol, a second
/// digit run, and an optional closing delimiter whose kind need not match
/// the opening one. Trailing input is left alone; `raw` keeps the whole
/// input.
pub fn boolean_expression(s: &str) -> (result: Result<BooleanExpression, ExpressionError>)
    ensures
        parse_ok(s@) <==> result is Ok,
        result matches Ok(expr) ==> {
            &&& expr.raw@ == s@
            &&& expr.members@ == parsed_members(s@)
            &&& operator_matches(expr.operation.operation_symbol, parsed_operator(s@))
        },
        !parse_ok(s@) ==> result == Err::<BooleanExpression, ExpressionError>(
            ExpressionError::ParseFailure,
        ),
{
    let n = s.unicode_len();
    let mut start: usize = 0;
    if n > 0 {
        let c0 = s.get_char(0);
        if c0 == '(' || c0 == '[' || c0 == '{' || c0 == '<' {
            start = 1;
        }
    }
    assert(start as int == first_operand_start(s@));
    let (end1, value1) = scan_digit_run(s, start, n);
    if end1 == start || value1 > 127 {
        return Err(ExpressionError::ParseFailure);
    }
    let mut symbol: Option<String> = None;
    let mut start2: usize = end1;
    if end1 < n {
        let c = s.get_char(end1);
        if c == '+' {
            proof {
                reveal_strlit("+");
                assert("+"@ =~= seq!['+']);
            }
            symbol = Some("+".to_owned());
            start2 = end1 + 1;
        } else if c == '.' {
            proof {
                reveal_strlit(".");
                assert("."@ =~= seq!['.']);
            }
            symbol = Some(".".to_owned());
            start2 = end1 + 1;
        }
    }
    assert(start2 as int == second_operand_start(s@));
    assert(operator_matches(symbol, parsed_operator(s@)));
    let (end2, value2) = scan_digit_run(s, start2, n);
    if end2 == start2 || value2 > 127 {
        return Err(ExpressionError::ParseFailure);
    }
    let raw = s.to_owned();
    let mut members: Vec<i8> = Vec::new();
    members.push(value1 as i8);
    members.push(value2 as i8);
    proof {
        assert(members@ =~= parsed_members(s@));
    }
    Ok(
        BooleanExpression {
            raw,
            members,
            operation: BooleanOperation { operation_symbol: symbol },
        },
    )
}

impl PartialEq for BooleanOperation {
    fn eq(&self, other: &Self) -> (result: bool) {
        match (&self.operation_symbol, &other.operation_symbol) {
            (None, None) => true,
            (Some(a), Some(b)) => *a == *b,
            _ => false,
        }
    }
}

impl vstd::std_specs::cmp::PartialEqSpecImpl for BooleanOperation {
    open spec fn obeys_eq_spec() -> bool {
        true
    }

    open spec fn eq_spec(&self, other: &Self) -> bool {
        match (self.operation_symbol, other.operation_symbol) {
            (None, None) => true,
            (Some(a), Some(b)) => a@ == b@,
            _ => false,
        }
    }
}

impl PartialEq for BooleanExpression {
    fn eq(&self, other: &Self) -> (result: bool) {
        if !(self.raw == other.raw) {
            return false;
        }
        if self.members.len() != other.members.len() {
            return false;
        }
        let mut idx: usize = 0;
        while idx < self.members.len()
            invariant
                idx <= self.members@.len(),
                self.members@.len() == other.members@.len(),
                forall|i: int| 0 <= i < idx ==> self.members@[i] == other.members@[i],
            decreases self.members@.len() - idx,
        {
            if self.members[idx] != other.members[idx] {
                return false;
            }
            idx = idx + 1;
        }
        proof {
            assert(self.members@ =~= other.members@);
        }
        self.operation == other.operation
    }
}

impl vstd::std_specs::cmp::PartialEqSpecImpl for BooleanExpression {
    open spec fn obeys_eq_spec() -> bool {
        true
    }

    open spec fn eq_spec(&self, other: &Self) -> bool {
        &&& self.raw@ == other.raw@
        &&& self.members@ == other.members@
        &&& match (self.operation.operation_symbol, other.operation.operation_symbol) {
            (None, None) => true,
            (Some(a), Some(b)) => a@ == b@,
            _ => false,
        }
    }
}

impl BooleanOperation {
    /// Resolves the stored operator symbol to a gate: `+` is Or, `.` is And;
    /// an empty slot is a missing operator, anything else an unknown gate
    /// carrying the symbol verbatim.
    pub fn gate(&self) -> (result: Result<Gate, ExpressionError>)
        ensures
            self.operation_symbol matches None ==> result == Err::<Gate, ExpressionError>(
                ExpressionError::MissingOperator,
            ),
            self.operation_symbol matches Some(sym) ==> {
                &&& or_symbol_text(sym@) ==> result == Ok::<Gate, ExpressionError>(Gate::Or)
                &&& and_symbol_text(sym@) ==> result == Ok::<Gate, ExpressionError>(Gate::And)
                &&& !or_symbol_text(sym@) && !and_symbol_text(sym@) ==> (result matches Err(
                    ExpressionError::UnknownGate(e),
                ) && e.unrecognised_gate@ == sym@)
            },
    {
        match &self.operation_symbol {
            None => Err(ExpressionError::MissingOperator),
            Some(sym) => match Gate::try_from(sym.as_str()) {
                Ok(gate) => Ok(gate),
                Err(e) => Err(ExpressionError::UnknownGate(e)),
            },
        }
    }
}

pub trait EvaluateBooleanExpression {
    /// Which results evaluation may produce.
    spec fn evaluation_matches(&self, result: Result<bool, ExpressionError>) -> bool;

    fn evaluate(&self) -> (result: Result<bool, ExpressionError>)
        ensures
            self.evaluation_matches(result),
    ;
}

impl EvaluateBooleanExpression for BooleanExpression {
    /// Evaluation resolves the stored symbol to its gate and applies that
    /// gate to the members; an empty or unrecognised symbol slot gives the
    /// corresponding error.
    open spec fn evaluation_matches(&self, result: Result<bool, ExpressionError>) -> bool {
        match self.operation.operation_symbol {
            None => result == Err::<bool, ExpressionError>(ExpressionError::MissingOperator),
            Some(sym) => if or_symbol_text(sym@) {
                result == Ok::<bool, ExpressionError>(or_eval(self.members@))
            } else if and_symbol_text(sym@) {
                result == Ok::<bool, ExpressionError>(and_eval(self.members@))
            } else {
                result matches Err(ExpressionError::UnknownGate(e)) && e.unrecognised_gate@
                    == sym@
            },
        }
    }

    fn evaluate(&self) -> (result: Result<bool, ExpressionError>) {
        let gate = match self.operation.gate() {
            Ok(gate) => gate,
            Err(e) => {
                return Err(e);
            },
        };
        let members_copy = self.members.clone();
        proof {
            assert forall|i: int| 0 <= i < self.members@.len() implies members_copy@[i]
                == self.members@[i] by {
                assert(cloned(self.members[i], members_copy[i]));
            }
            assert(members_copy@ =~= self.members@);
        }
        Ok(gate.test(members_copy))
    }
}

/// What a successfully parsed input evaluates to: the OR rule under `+`,
/// the AND rule under `.`.
pub open spec fn eval_parsed(s: Seq<char>) -> bool
    recommends
        parse_ok(s),
{
    if parsed_operator(s) == Some('+') {
        or_eval(parsed_members(s))
    } else {
        and_eval(parsed_members(s))
    }
}

/// The single entry point: strips spaces, parses one leading boolean
/// expression, and evaluates it. Trailing input after the expression is
/// ignored; input the grammar cannot match is a parse failure.
pub fn evaluate_expression(s: &str) -> (result: Result<bool, ExpressionError>)
    ensures
        parse_ok(strip_spaces(s@)) <==> result is Ok,
        parse_ok(strip_spaces(s@)) ==> result == Ok::<bool, ExpressionError>(
            eval_parsed(strip_spaces(s@)),
        ),
        !parse_ok(strip_spaces(s@)) ==> result == Err::<bool, ExpressionError>(
            ExpressionError::ParseFailure,
        ),
{
    let without_whitespace = remove_spaces_from(s);
    let expr = match boolean_expression(without_whitespace.as_str()) {
        Ok(expr) => expr,
        Err(e) => {
            return Err(e);
        },
    };
    proof {
        lemma_parse_ok_has_operator(strip_spaces(s@));
        let c = parsed_operator(strip_spaces(s@)).unwrap();
        if c == '+' {
            assert(expr.operation.operation_symbol matches Some(t) && t@ == seq!['+']);
        } else {
            assert(c == '.');
            assert(expr.operation.operation_symbol matches Some(t) && t@ == seq!['.']);
        }
    }
    expr.evaluate()
}

/// Appending input does not move the end of a digit run, as long as the run
/// already ended inside the original input, or the first appended character
/// is not a digit.
proof fn lemma_digit_run_end_append(s: Seq<char>, u: Seq<char>, from: int)
    requires
        0 <= from <= s.len(),
    ensures
        digit_run_end(s, from) < s.len() ==> digit_run_end(s + u, from) == digit_run_end(s, from),
        digit_run_end(s, from) == s.len() && (u.len() == 0 || !is_digit_char(u[0]))
            ==> digit_run_end(s + u, from) == s.len(),
    decreases s.len() - from,
{
    if from < s.len() && is_digit_char(s[from]) {
        assert((s + u)[from] == s[from]);
        lemma_digit_run_end_append(s, u, from + 1);
    } else if from < s.len() {
        assert((s + u)[from] == s[from]);
        assert(digit_run_end(s + u, from) == from);
    } else {
        assert(digit_run_end(s, from) == from);
        if u.len() == 0 {
            assert(digit_run_end(s + u, from) == from);
        } else if !is_digit_char(u[0]) {
            assert((s + u)[from] == u[0]);
            assert(digit_run_end(s + u, from) == from);
        }
    }
}

/// Input appended after the position where parsing stopped never changes
/// what was parsed, provided its first character could not have extended
/// the match.
pub proof fn lemma_parse_unaffected_by_suffix(s: Seq<char>, u: Seq<char>)
    requires
        u.len() > 0 ==> !is_digit_char(u[0]) && !is_operator_char(u[0]),
        s.len() == 0 && u.len() > 0 ==> !is_open_delim_char(u[0]),
    ensures
        parse_ok(s + u) == parse_ok(s),
        parsed_members(s + u) == parsed_members(s),
        parsed_operator(s + u) == parsed_operator(s),
        eval_parsed(s + u) == eval_parsed(s),
{
    if u.len() == 0 {
        assert(s + u =~= s);
    } else {
        let t = s + u;
        assert(forall|k: int| 0 <= k < s.len() ==> t[k] == s[k]);
        assert(first_operand_start(t) == first_operand_start(s));
        lemma_digit_run_end_properties(s, first_operand_start(s));
        lemma_digit_run_end_append(s, u, first_operand_start(s));
        let e1 = first_operand_end(s);
        assert(first_operand_end(t) == e1);
        if e1 < s.len() {
            assert(t[e1] == s[e1]);
        } else {
            assert(t[e1] == u[0]);
        }
        assert(has_operator(t) == has_operator(s));
        let s2 = second_operand_start(s);
        assert(second_operand_start(t) == s2);
        lemma_digit_run_end_properties(s, s2);
        lemma_digit_run_end_append(s, u, s2);
        assert(second_operand_end(t) == second_operand_end(s));
        assert(first_operand_text(t) =~= first_operand_text(s));
        assert(second_operand_text(t) =~= second_operand_text(s));
        assert(parsed_members(t) =~= parsed_members(s));
    }
}

/// Trailing input after the position where parsing stopped is ignored: when
/// the second operand ends strictly inside the input, anything at all may
/// follow without changing what was parsed.
pub proof fn lemma_trailing_input_ignored(s: Seq<char>, u: Seq<char>)
    requires
        second_operand_end(s) < s.len(),
    ensures
        parse_ok(s + u) == parse_ok(s),
        parsed_members(s + u) == parsed_members(s),
        parsed_operator(s + u) == parsed_operator(s),
        eval_parsed(s + u) == eval_parsed(s),
{
    let t = s + u;
    assert(forall|k: int| 0 <= k < s.len() ==> t[k] == s[k]);
    lemma_digit_run_end_properties(s, first_operand_start(s));
    assert(first_operand_start(t) == first_operand_start(s));
    lemma_digit_run_end_properties(s, second_operand_start(s));
    lemma_digit_run_end_append(s, u, first_operand_start(s));
    let e1 = first_operand_end(s);
    assert(first_operand_end(t) == e1);
    assert(e1 < s.len());
    assert(t[e1] == s[e1]);
    assert(has_operator(t) == has_operator(s));
    let s2 = second_operand_start(s);
    assert(second_operand_start(t) == s2);
    lemma_digit_run_end_append(s, u, s2);
    assert(second_operand_end(t) == second_operand_end(s));
    assert(first_operand_text(t) =~= first_operand_text(s));
    assert(second_operand_text(t) =~= second_operand_text(s));
    assert(parsed_members(t) =~= parsed_members(s));
}

/// Which closing delimiter ends the input makes no difference to what is
/// parsed or to what it evaluates to, whether or not its kind matches the
/// opening one.
pub proof fn lemma_closing_delimiter_kind_irrelevant(s: Seq<char>, c1: char, c2: char)
    requires
        is_close_delim_char(c1),
        is_close_delim_char(c2),
    ensures
        parse_ok(s.push(c1)) == parse_ok(s.push(c2)),
        parsed_members(s.push(c1)) == parsed_members(s.push(c2)),
        parsed_operator(s.push(c1)) == parsed_operator(s.push(c2)),
        eval_parsed(s.push(c1)) == eval_parsed(s.push(c2)),
{
    assert(s.push(c1) =~= s + seq![c1]);
    assert(s.push(c2) =~= s + seq![c2]);
    lemma_parse_unaffected_by_suffix(s, seq![c1]);
    lemma_parse_unaffected_by_suffix(s, seq![c2]);
}

} // verus!
