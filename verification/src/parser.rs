use vstd::prelude::*;
use vstd::slice::slice_subrange;
use vstd::slice::slice_to_vec;
use vstd::string::StringExecFns;

use crate::binary_operator::spec_operator_at;
use crate::binary_operator::BinaryOperator;
use crate::expression_tree::ExpressionTree;
use crate::expression_tree::Priority;

verus! {

/// A parse failure: the absolute byte offset into the original input at
/// which parsing failed, and a human-readable message.
#[derive(Debug, Clone)]
pub struct ParseError(pub usize, pub String);

/// A numeric literal as it stood in the input: an optional leading minus
/// sign, ASCII digits and at most one decimal point. The parser only ever
/// produces valid literals (see `spec_valid_number`); turning one into a
/// machine number is left to the caller.
#[derive(Debug, Clone)]
pub struct Number {
    pub literal: Vec<u8>,
}

impl View for Number {
    type V = Seq<u8>;

    open spec fn view(&self) -> Seq<u8> {
        self.literal@
    }
}

pub open spec fn is_ascii_whitespace(b: u8) -> bool {
    b == 32 || b == 9 || b == 10 || b == 12 || b == 13
}

pub open spec fn is_ascii_digit(b: u8) -> bool {
    48 <= b <= 57
}

/// The index of the first byte at or after `i` that is not ASCII
/// whitespace, or the input's length if only whitespace remains.
pub open spec fn spec_skip_whitespace(s: Seq<u8>, i: int) -> int
    decreases s.len() - i,
{
    if 0 <= i < s.len() {
        if is_ascii_whitespace(s[i]) {
            spec_skip_whitespace(s, i + 1)
        } else {
            i
        }
    } else {
        s.len() as int
    }
}

pub proof fn lemma_skip_whitespace_bounds(s: Seq<u8>, i: int)
    requires
        0 <= i <= s.len(),
    ensures
        i <= spec_skip_whitespace(s, i) <= s.len(),
    decreases s.len() - i,
{
    if i < s.len() && is_ascii_whitespace(s[i]) {
        lemma_skip_whitespace_bounds(s, i + 1);
    }
}

/// Returns the first non-whitespace byte's index at or after `idx`.
fn next_not_whitespace(arr: &[u8], idx: usize) -> (r: usize)
    ensures
        r == spec_skip_whitespace(arr@, idx as int),
        idx <= r <= arr@.len() || (idx > arr@.len() && r == arr@.len()),
{
    let mut i = idx;
    loop
        invariant
            idx <= i,
            spec_skip_whitespace(arr@, idx as int) == spec_skip_whitespace(arr@, i as int),
        decreases arr@.len() - i,
    {
        if i >= arr.len() {
            return arr.len();
        }
        let b = arr[i];
        if !(b == 32 || b == 9 || b == 10 || b == 12 || b == 13) {
            return i;
        }
        i += 1;
    }
}

/// The index of the close parenthesis that matches an open one, scanning
/// from `i` with `open` parentheses currently unclosed, or `None` when the
/// input ends first.
pub open spec fn spec_find_close(s: Seq<u8>, i: int, open: int) -> Option<int>
    decreases s.len() - i,
{
    if 0 <= i < s.len() {
        if s[i] == 41 {
            if open == 1 {
                Some(i)
            } else {
                spec_find_close(s, i + 1, open - 1)
            }
        } else if s[i] == 40 {
            spec_find_close(s, i + 1, open + 1)
        } else {
            spec_find_close(s, i + 1, open)
        }
    } else {
        None
    }
}

pub proof fn lemma_find_close_bounds(s: Seq<u8>, i: int, open: int)
    requires
        0 <= i,
    ensures
        spec_find_close(s, i, open) matches Some(j) ==> i <= j < s.len() && s[j] == 41,
    decreases s.len() - i,
{
    if 0 <= i < s.len() && !(s[i] == 41 && open == 1) {
        if s[i] == 41 {
            lemma_find_close_bounds(s, i + 1, open - 1);
        } else if s[i] == 40 {
            lemma_find_close_bounds(s, i + 1, open + 1);
        } else {
            lemma_find_close_bounds(s, i + 1, open);
        }
    }
}

/// The index just past the numeric literal's body: the first byte at or
/// after `i` that is neither an ASCII digit nor a decimal point, or the
/// input's length.
pub open spec fn spec_number_end(s: Seq<u8>, i: int) -> int
    decreases s.len() - i,
{
    if 0 <= i < s.len() {
        if is_ascii_digit(s[i]) || s[i] == 46 {
            spec_number_end(s, i + 1)
        } else {
            i
        }
    } else {
        s.len() as int
    }
}

pub proof fn lemma_number_end_bounds(s: Seq<u8>, i: int)
    requires
        0 <= i <= s.len(),
    ensures
        i <= spec_number_end(s, i) <= s.len(),
    decreases s.len() - i,
{
    if i < s.len() && (is_ascii_digit(s[i]) || s[i] == 46) {
        lemma_number_end_bounds(s, i + 1);
    }
}

/// Whether a scanned slice is a valid numeric literal: after an optional
/// leading minus sign there is at least one digit, at most one decimal
/// point, and nothing else. On the alphabet the scanner can produce (a
/// leading sign, digits and points) this is exactly the set of literals
/// that a decimal-to-binary conversion accepts.
pub open spec fn spec_valid_number(lit: Seq<u8>) -> bool {
    let start: int = if lit.len() > 0 && lit[0] == 45 {
        1
    } else {
        0
    };
    &&& lit.len() > start
    &&& forall|k: int| start <= k < lit.len() ==> is_ascii_digit(#[trigger] lit[k]) || lit[k] == 46
    &&& exists|k: int| start <= k < lit.len() && is_ascii_digit(#[trigger] lit[k])
    &&& forall|k1: int, k2: int|
        start <= k1 < k2 < lit.len() ==> !(#[trigger] lit[k1] == 46 && #[trigger] lit[k2] == 46)
}

pub open spec fn msg_expected_operator() -> Seq<char> {
    "Expected an operator."@
}

pub open spec fn msg_expected_number_nothing() -> Seq<char> {
    "Expected a number, found nothing."@
}

pub open spec fn msg_mismatched_parenthesis() -> Seq<char> {
    "Mismatched parenthesis."@
}

pub open spec fn msg_invalid_number() -> Seq<char> {
    "Expected a number."@
}

pub open spec fn msg_expected_number_found(b: u8) -> Seq<char> {
    "Expected a number, found \""@ + seq![b as char] + "\"."@
}

/// The shape of a parsed expression, with each leaf abstracted to the byte
/// sequence of its literal. Contracts speak of trees through this form.
pub enum SpecTree {
    Value(Seq<u8>),
    Expression { operator: BinaryOperator, left: Box<SpecTree>, right: Box<SpecTree> },
    Enclosed(Box<SpecTree>),
}

/// A parse failure in the abstract: byte offset and message text.
pub struct SpecParseError {
    pub offset: int,
    pub message: Seq<char>,
}

/// The insertion algorithm on abstract trees, mirroring
/// `ExpressionTree::spec_append`.
pub open spec fn spec_append_tree(t: SpecTree, operator: BinaryOperator, right: SpecTree) -> SpecTree
    decreases t,
{
    match t {
        SpecTree::Expression { operator: t_operator, left, right: t_right } => {
            if operator.spec_priority() > t_operator.spec_priority() {
                SpecTree::Expression {
                    operator: t_operator,
                    left,
                    right: Box::new(spec_append_tree(*t_right, operator, right)),
                }
            } else {
                SpecTree::Expression { operator, left: Box::new(t), right: Box::new(right) }
            }
        },
        _ => SpecTree::Expression { operator, left: Box::new(t), right: Box::new(right) },
    }
}

/// The abstract form of a concrete expression tree.
pub open spec fn tree_model(t: ExpressionTree<Number, BinaryOperator>) -> SpecTree
    decreases t,
{
    match t {
        ExpressionTree::Value(n) => SpecTree::Value(n@),
        ExpressionTree::Expression { operator, left, right } => SpecTree::Expression {
            operator,
            left: Box::new(tree_model(*left)),
            right: Box::new(tree_model(*right)),
        },
        ExpressionTree::Enclosed(inner) => SpecTree::Enclosed(Box::new(tree_model(*inner))),
    }
}

pub proof fn lemma_append_tree_model(
    t: ExpressionTree<Number, BinaryOperator>,
    operator: BinaryOperator,
    right: ExpressionTree<Number, BinaryOperator>,
)
    ensures
        tree_model(t.spec_append(operator, right)) == spec_append_tree(
            tree_model(t),
            operator,
            tree_model(right),
        ),
    decreases t,
{
    match t {
        ExpressionTree::Expression { operator: t_operator, left, right: t_right } => {
            if operator.spec_priority() > t_operator.spec_priority() {
                lemma_append_tree_model(*t_right, operator, right);
            }
        },
        _ => {},
    }
}

/// One operand parsed at index `i`: a parenthesized sub-expression parsed
/// recursively and wrapped as atomic, or a numeric literal. Returns the
/// operand's tree and the index of the next non-whitespace byte after it.
pub open spec fn spec_parse_operand(s: Seq<u8>, i: int) -> Result<(SpecTree, int), SpecParseError>
    decreases s.len(), 0int, 0int,
{
    if !(0 <= i < s.len()) {
        Err(SpecParseError { offset: i, message: msg_expected_number_nothing() })
    } else if s[i] == 40 {
        match spec_find_close(s, i + 1, 1) {
            None => Err(SpecParseError { offset: i, message: msg_mismatched_parenthesis() }),
            Some(j) => {
                if i + 1 <= j && j < s.len() {
                    match spec_parse(s.subrange(i + 1, j)) {
                        Ok(t) => Ok(
                            (SpecTree::Enclosed(Box::new(t)), spec_skip_whitespace(s, j + 1)),
                        ),
                        Err(e) => Err(
                            SpecParseError { offset: e.offset + i + 1, message: e.message },
                        ),
                    }
                } else {
                    // never reached: see `lemma_find_close_bounds`; this
                    // branch keeps the recursion well founded
                    Err(SpecParseError { offset: i, message: msg_mismatched_parenthesis() })
                }
            },
        }
    } else if s[i] == 45 || is_ascii_digit(s[i]) {
        let end = spec_number_end(s, i + 1);
        if i + 1 <= end && end <= s.len() {
            let lit = s.subrange(i, end);
            if spec_valid_number(lit) {
                Ok((SpecTree::Value(lit), spec_skip_whitespace(s, end)))
            } else {
                Err(SpecParseError { offset: i, message: msg_invalid_number() })
            }
        } else {
            // never reached: see `lemma_number_end_bounds`
            Err(SpecParseError { offset: i, message: msg_invalid_number() })
        }
    } else {
        Err(SpecParseError { offset: i, message: msg_expected_number_found(s[i]) })
    }
}

/// The parse loop after the first operand: at each step one operator token,
/// whitespace, and one operand, appended to the tree built so far.
pub open spec fn spec_parse_loop(s: Seq<u8>, i: int, t: SpecTree) -> Result<
    SpecTree,
    SpecParseError,
>
    decreases s.len(), 1int, s.len() - i,
{
    if i >= s.len() {
        Ok(t)
    } else {
        match spec_operator_at(s, i) {
            None => Err(SpecParseError { offset: i, message: msg_expected_operator() }),
            Some((op, after_op)) => {
                let operand_start = spec_skip_whitespace(s, after_op);
                match spec_parse_operand(s, operand_start) {
                    Err(e) => Err(e),
                    Ok((right, next)) => {
                        if i < next <= s.len() {
                            spec_parse_loop(s, next, spec_append_tree(t, op, right))
                        } else {
                            // never reached: see `lemma_operand_advances`
                            Err(SpecParseError { offset: i, message: msg_expected_operator() })
                        }
                    },
                }
            },
        }
    }
}

/// The whole parse: leading whitespace, one operand to seed the tree, then
/// the operator/operand loop until the input is exhausted.
pub open spec fn spec_parse(s: Seq<u8>) -> Result<SpecTree, SpecParseError>
    decreases s.len(), 2int, 0int,
{
    let start = spec_skip_whitespace(s, 0);
    match spec_parse_operand(s, start) {
        Err(e) => Err(e),
        Ok((t, next)) => spec_parse_loop(s, next, t),
    }
}

/// A successfully parsed operand always consumes at least one byte and
/// leaves the index within the input's bounds.
pub proof fn lemma_operand_advances(s: Seq<u8>, i: int)
    requires
        0 <= i,
    ensures
        spec_parse_operand(s, i) matches Ok((t, next)) ==> i < next <= s.len(),
{
    if 0 <= i < s.len() {
        if s[i] == 40 {
            lemma_find_close_bounds(s, i + 1, 1);
            match spec_find_close(s, i + 1, 1) {
                Some(j) => lemma_skip_whitespace_bounds(s, j + 1),
                None => (),
            }
        } else if s[i] == 45 || is_ascii_digit(s[i]) {
            lemma_number_end_bounds(s, i + 1);
            let end = spec_number_end(s, i + 1);
            lemma_skip_whitespace_bounds(s, end);
        }
    }
}

pub proof fn lemma_operand_error_offset(s: Seq<u8>, i: int)
    requires
        0 <= i <= s.len(),
    ensures
        spec_parse_operand(s, i) matches Err(e) ==> 0 <= e.offset <= s.len(),
    decreases s.len(), 0int, 0int,
{
    if 0 <= i < s.len() && s[i] == 40 {
        lemma_find_close_bounds(s, i + 1, 1);
        match spec_find_close(s, i + 1, 1) {
            Some(j) => {
                if i + 1 <= j && j < s.len() {
                    lemma_parse_error_offset(s.subrange(i + 1, j));
                }
            },
            None => (),
        }
    }
}

pub proof fn lemma_loop_error_offset(s: Seq<u8>, i: int, t: SpecTree)
    requires
        0 <= i,
    ensures
        spec_parse_loop(s, i, t) matches Err(e) ==> 0 <= e.offset <= s.len(),
    decreases s.len(), 1int, s.len() - i,
{
    if i < s.len() {
        match spec_operator_at(s, i) {
            Some((op, after_op)) => {
                lemma_skip_whitespace_bounds(s, after_op);
                let operand_start = spec_skip_whitespace(s, after_op);
                lemma_operand_error_offset(s, operand_start);
                match spec_parse_operand(s, operand_start) {
                    Ok((right, next)) => {
                        if i < next <= s.len() {
                            lemma_loop_error_offset(s, next, spec_append_tree(t, op, right));
                        }
                    },
                    Err(_) => (),
                }
            },
            None => (),
        }
    }
}

/// Every parse error's byte offset indexes a position within
/// `[0, s.len()]` of the original input, including offsets that originate
/// inside nested parentheses and were re-anchored to the outer input.
pub proof fn lemma_parse_error_offset(s: Seq<u8>)
    ensures
        spec_parse(s) matches Err(e) ==> 0 <= e.offset <= s.len(),
    decreases s.len(), 2int, 0int,
{
    lemma_skip_whitespace_bounds(s, 0);
    let start = spec_skip_whitespace(s, 0);
    lemma_operand_error_offset(s, start);
    match spec_parse_operand(s, start) {
        Ok((t, next)) => {
            lemma_operand_advances(s, start);
            lemma_loop_error_offset(s, next, t);
        },
        Err(_) => (),
    }
}

/// Parsing is deterministic: the same input always yields the same tree,
/// or the same error. Re-parsing a text therefore always produces a tree
/// that any fixed operator semantics reduces to the same value.
pub proof fn lemma_parse_deterministic(s1: Seq<u8>, s2: Seq<u8>)
    requires
        s1 == s2,
    ensures
        spec_parse(s1) == spec_parse(s2),
{
}

/// The tree reflects a precedence-respecting grouping: below every binary
/// node, the right child's operator (when there is one) binds strictly
/// tighter than the node's own, both children are grouped the same way, and
/// so is the inside of every enclosed group.
pub open spec fn spec_tree_grouped(t: SpecTree) -> bool
    decreases t,
{
    match t {
        SpecTree::Value(_) => true,
        SpecTree::Enclosed(inner) => spec_tree_grouped(*inner),
        SpecTree::Expression { operator, left, right } => {
            &&& (match *right {
                SpecTree::Expression { operator: r_operator, .. } => {
                    operator.spec_priority() < r_operator.spec_priority()
                },
                _ => true,
            })
            &&& spec_tree_grouped(*left)
            &&& spec_tree_grouped(*right)
        },
    }
}

/// Inserting an atomic, well-grouped operand keeps the tree well grouped,
/// and leaves either the new operator or the old one at the root.
pub proof fn lemma_append_tree_grouped(t: SpecTree, operator: BinaryOperator, right: SpecTree)
    requires
        spec_tree_grouped(t),
        right matches SpecTree::Value(_) || right matches SpecTree::Enclosed(_),
        spec_tree_grouped(right),
    ensures
        spec_tree_grouped(spec_append_tree(t, operator, right)),
        (match spec_append_tree(t, operator, right) {
            SpecTree::Expression { operator: new_root, .. } => {
                new_root == operator || (match t {
                    SpecTree::Expression { operator: old_root, .. } => new_root == old_root,
                    _ => false,
                })
            },
            _ => false,
        }),
    decreases t,
{
    match t {
        SpecTree::Expression { operator: t_operator, left, right: t_right } => {
            if operator.spec_priority() > t_operator.spec_priority() {
                lemma_append_tree_grouped(*t_right, operator, right);
                let new_right = spec_append_tree(*t_right, operator, right);
                let new_tree = SpecTree::Expression {
                    operator: t_operator,
                    left,
                    right: Box::new(new_right),
                };
                assert(spec_tree_grouped(new_right));
                assert(spec_tree_grouped(new_tree));
            } else {
                let new_tree = SpecTree::Expression {
                    operator,
                    left: Box::new(t),
                    right: Box::new(right),
                };
                assert(spec_tree_grouped(right));
                assert(spec_tree_grouped(new_tree));
            }
        },
        _ => {
            let new_tree = SpecTree::Expression {
                operator,
                left: Box::new(t),
                right: Box::new(right),
            };
            assert(spec_tree_grouped(right));
            assert(spec_tree_grouped(new_tree));
        },
    }
}

pub proof fn lemma_operand_grouped(s: Seq<u8>, i: int)
    requires
        0 <= i <= s.len(),
    ensures
        spec_parse_operand(s, i) matches Ok((t, next)) ==> spec_tree_grouped(t) && (t matches
            SpecTree::Value(_) || t matches SpecTree::Enclosed(_)),
    decreases s.len(), 0int, 0int,
{
    if 0 <= i < s.len() && s[i] == 40 {
        lemma_find_close_bounds(s, i + 1, 1);
        match spec_find_close(s, i + 1, 1) {
            Some(j) => {
                if i + 1 <= j && j < s.len() {
                    lemma_parse_grouped(s.subrange(i + 1, j));
                }
            },
            None => (),
        }
    }
}

pub proof fn lemma_loop_grouped(s: Seq<u8>, i: int, t: SpecTree)
    requires
        0 <= i,
        spec_tree_grouped(t),
    ensures
        spec_parse_loop(s, i, t) matches Ok(m) ==> spec_tree_grouped(m),
    decreases s.len(), 1int, s.len() - i,
{
    if i < s.len() {
        match spec_operator_at(s, i) {
            Some((op, after_op)) => {
                lemma_skip_whitespace_bounds(s, after_op);
                let operand_start = spec_skip_whitespace(s, after_op);
                lemma_operand_grouped(s, operand_start);
                match spec_parse_operand(s, operand_start) {
                    Ok((right, next)) => {
                        if i < next <= s.len() {
                            lemma_append_tree_grouped(t, op, right);
                            lemma_loop_grouped(s, next, spec_append_tree(t, op, right));
                        }
                    },
                    Err(_) => (),
                }
            },
            None => (),
        }
    }
}

/// Every tree the parser returns reflects a valid left-to-right,
/// precedence-respecting grouping of all the operators it read.
pub proof fn lemma_parse_grouped(s: Seq<u8>)
    ensures
        spec_parse(s) matches Ok(m) ==> spec_tree_grouped(m),
    decreases s.len(), 2int, 0int,
{
    lemma_skip_whitespace_bounds(s, 0);
    let start = spec_skip_whitespace(s, 0);
    lemma_operand_grouped(s, start);
    match spec_parse_operand(s, start) {
        Ok((t, next)) => {
            lemma_operand_advances(s, start);
            lemma_loop_grouped(s, next, t);
        },
        Err(_) => (),
    }
}

/// Checks a scanned slice for being a valid numeric literal.
fn is_valid_number(lit: &[u8]) -> (r: bool)
    ensures
        r == spec_valid_number(lit@),
{
    let n = lit.len();
    let start: usize = if n > 0 && lit[0] == 45 {
        1
    } else {
        0
    };
    if n <= start {
        return false;
    }
    let mut k = start;
    let mut seen_digit = false;
    let mut seen_dot = false;
    while k < n
        invariant
            start <= k <= n,
            n == lit@.len(),
            start < n,
            (start == 1) == (lit@.len() > 0 && lit@[0] == 45),
            start == 0 || start == 1,
            forall|m: int| start <= m < k ==> is_ascii_digit(#[trigger] lit@[m]) || lit@[m] == 46,
            seen_digit == exists|m: int| start <= m < k && is_ascii_digit(#[trigger] lit@[m]),
            seen_dot == exists|m: int| start <= m < k && #[trigger] lit@[m] == 46,
            forall|m1: int, m2: int|
                start <= m1 < m2 < k ==> !(#[trigger] lit@[m1] == 46 && #[trigger] lit@[m2] == 46),
        decreases n - k,
    {
        let b = lit[k];
        if 48 <= b && b <= 57 {
            seen_digit = true;
        } else if b == 46 {
            if seen_dot {
                proof {
                    let m1 = choose|m: int| start <= m < k && #[trigger] lit@[m] == 46;
                    assert(lit@[m1] == 46 && lit@[k as int] == 46 && m1 < k);
                }
                return false;
            }
            seen_dot = true;
        } else {
            assert(!(is_ascii_digit(lit@[k as int]) || lit@[k as int] == 46));
            return false;
        }
        k += 1;
    }
    seen_digit
}

/// The matching close parenthesis for an open one just before `from`, with
/// one parenthesis already unclosed.
fn find_close(bytes: &[u8], from: usize) -> (r: Option<usize>)
    requires
        1 <= from <= bytes@.len(),
    ensures
        (match spec_find_close(bytes@, from as int, 1) {
            Some(j) => r matches Some(u) && u == j,
            None => r is None,
        }),
{
    let mut j = from;
    let mut open_count: usize = 1;
    while j < bytes.len()
        invariant
            1 <= from <= j <= bytes@.len(),
            1 <= open_count,
            open_count <= 1 + j - from,
            spec_find_close(bytes@, from as int, 1) == spec_find_close(
                bytes@,
                j as int,
                open_count as int,
            ),
        decreases bytes@.len() - j,
    {
        let b = bytes[j];
        if b == 41 {
            if open_count == 1 {
                return Some(j);
            }
            open_count -= 1;
        } else if b == 40 {
            assert(open_count <= j);
            open_count += 1;
        }
        j += 1;
    }
    None
}

/// Relies on std's `String::push`: it appends exactly the one given
/// character at the end of the string.
#[verifier::external_body]
fn push_char(s: &mut String, c: char)
    ensures
        final(s)@ == old(s)@.push(c),
{
    s.push(c);
}

fn message_expected_number_found(b: u8) -> (m: String)
    ensures
        m@ == msg_expected_number_found(b),
{
    let mut m = String::from_str("Expected a number, found \"");
    push_char(&mut m, b as char);
    m.append("\".");
    proof {
        assert(m@ =~= msg_expected_number_found(b));
    }
    m
}

/// Parses one operand at `*idx`: a parenthesized sub-expression, parsed
/// recursively and wrapped as an atomic `Enclosed` node, or a numeric
/// literal. On success `*idx` stands on the next non-whitespace byte after
/// the operand.
fn parse_tree(bytes: &[u8], idx: &mut usize) -> (r: Result<
    ExpressionTree<Number, BinaryOperator>,
    ParseError,
>)
    requires
        *old(idx) <= bytes@.len(),
    ensures
        (match spec_parse_operand(bytes@, *old(idx) as int) {
            Ok((m, next)) => r matches Ok(t) && tree_model(t) == m && *final(idx) == next,
            Err(me) => r matches Err(e) && e.0 == me.offset && e.1@ == me.message,
        }),
    decreases bytes@.len(), 0int,
{
    if *idx >= bytes.len() {
        return Err(ParseError(*idx, String::from_str("Expected a number, found nothing.")));
    }
    let start = *idx;
    let b0 = bytes[start];
    if b0 == 40 {
        match find_close(bytes, start + 1) {
            None => Err(ParseError(start, String::from_str("Mismatched parenthesis."))),
            Some(close) => {
                proof {
                    lemma_find_close_bounds(bytes@, start as int + 1, 1);
                }
                let sub = slice_subrange(bytes, start + 1, close);
                match parse_expression(sub) {
                    Ok(t) => {
                        let tree = ExpressionTree::new_enclosed(t);
                        *idx = next_not_whitespace(bytes, close + 1);
                        Ok(tree)
                    },
                    Err(err) => {
                        proof {
                            lemma_parse_error_offset(sub@);
                        }
                        Err(ParseError(err.0 + start + 1, err.1))
                    },
                }
            },
        }
    } else if b0 == 45 || (48 <= b0 && b0 <= 57) {
        *idx += 1;
        loop
            invariant_except_break
                start + 1 <= *idx <= bytes@.len(),
                spec_number_end(bytes@, start as int + 1) == spec_number_end(bytes@, *idx as int),
            ensures
                start + 1 <= *idx <= bytes@.len(),
                *idx == spec_number_end(bytes@, start as int + 1),
            decreases bytes@.len() - *idx,
        {
            if *idx >= bytes.len() {
                break;
            }
            let b = bytes[*idx];
            if !((48 <= b && b <= 57) || b == 46) {
                break;
            }
            *idx += 1;
        }
        let lit = slice_subrange(bytes, start, *idx);
        if is_valid_number(lit) {
            let number = Number { literal: slice_to_vec(lit) };
            *idx = next_not_whitespace(bytes, *idx);
            Ok(ExpressionTree::Value(number))
        } else {
            Err(ParseError(start, String::from_str("Expected a number.")))
        }
    } else {
        Err(ParseError(start, message_expected_number_found(b0)))
    }
}

/// Parses a whole expression: leading whitespace, one operand to seed the
/// tree, then repeatedly one operator token, whitespace and one operand,
/// inserted by priority, until the input is exhausted. The result is
/// exactly the tree of `spec_parse`, or the error of `spec_parse` with its
/// byte offset and message.
pub fn parse_expression(bytes: &[u8]) -> (r: Result<
    ExpressionTree<Number, BinaryOperator>,
    ParseError,
>)
    ensures
        (match spec_parse(bytes@) {
            Ok(m) => r matches Ok(t) && tree_model(t) == m,
            Err(me) => r matches Err(e) && e.0 == me.offset && e.1@ == me.message,
        }),
    decreases bytes@.len(), 1int,
{
    let mut idx = next_not_whitespace(bytes, 0);
    proof {
        lemma_skip_whitespace_bounds(bytes@, 0);
    }
    let mut tree = match parse_tree(bytes, &mut idx) {
        Ok(t) => t,
        Err(e) => {
            return Err(e);
        },
    };
    proof {
        lemma_operand_advances(bytes@, spec_skip_whitespace(bytes@, 0));
    }
    while idx < bytes.len()
        invariant
            idx <= bytes@.len(),
            spec_parse(bytes@) == spec_parse_loop(bytes@, idx as int, tree_model(tree)),
        decreases bytes@.len() - idx,
    {
        let ghost i0 = idx as int;
        let op = match BinaryOperator::parse_next(bytes, &mut idx) {
            Some(op) => op,
            None => {
                return Err(ParseError(idx, String::from_str("Expected an operator.")));
            },
        };
        let ghost after_op = idx as int;
        idx = next_not_whitespace(bytes, idx);
        proof {
            lemma_skip_whitespace_bounds(bytes@, after_op);
        }
        let ghost operand_start = idx as int;
        let right = match parse_tree(bytes, &mut idx) {
            Ok(t) => t,
            Err(e) => {
                return Err(e);
            },
        };
        proof {
            lemma_operand_advances(bytes@, operand_start);
            lemma_append_tree_model(tree, op, right);
        }
        tree = tree.append(op, right);
    }
    Ok(tree)
}

} // verus!
