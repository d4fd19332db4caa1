use vstd::prelude::*;
use crate::ast::SExpr;
use crate::environment::{SFrame, heap_set, lemma_lookup_after_set};
use crate::object::{SObject, SHashKey, spec_hash_key, hash_insert, lemma_hash_find, lemma_hash_find_at, lemma_hash_find_none, lemma_hash_get_insert};
use crate::semantics::{SFlow, SState, ev_expr, ev_stmt, infix_op, index_op, member_value, prefix_op, truthy, builtin_call};
use crate::object::Builtin;
use crate::host::SReply;
use crate::lexer::{next_token_at, digits_value, is_digit_char};
use crate::text::decimal;
use crate::token::SToken;
use crate::grammar::{Src, PS, tok, cur, peek, adv, prec_of, prefix_prec, p_expression, p_operand, p_infix_loop, p_infix, p_prefix, p_statement, p_let};
use crate::ast::SStmt;
use crate::object::{display, display_list};

verus! {

// ---------------------------------------------------------------------------
// What the operators of the language compute, stated over the mathematics of their operands.
// ---------------------------------------------------------------------------

/// `+`, `-` and `*` on integers give the mathematical sum, difference and product whenever it
/// fits in 64 bits, and crash otherwise.
pub proof fn law_integer_arithmetic(h: Seq<SFrame>, a: i64, b: i64)
    ensures
        i64::MIN <= a + b <= i64::MAX ==> infix_op(h, SToken::Plus, SObject::Integer(a), SObject::Integer(b))
            == SFlow::Val(SObject::Integer((a + b) as i64)),
        !(i64::MIN <= a + b <= i64::MAX) ==> infix_op(h, SToken::Plus, SObject::Integer(a), SObject::Integer(b)) is Crash,
        i64::MIN <= a - b <= i64::MAX ==> infix_op(h, SToken::Minus, SObject::Integer(a), SObject::Integer(b))
            == SFlow::Val(SObject::Integer((a - b) as i64)),
        !(i64::MIN <= a - b <= i64::MAX) ==> infix_op(h, SToken::Minus, SObject::Integer(a), SObject::Integer(b)) is Crash,
        i64::MIN <= a * b <= i64::MAX ==> infix_op(h, SToken::Asterisk, SObject::Integer(a), SObject::Integer(b))
            == SFlow::Val(SObject::Integer((a * b) as i64)),
        !(i64::MIN <= a * b <= i64::MAX) ==> infix_op(h, SToken::Asterisk, SObject::Integer(a), SObject::Integer(b))
            is Crash,
{
}

/// `/` on integers divides and rounds towards zero; dividing by zero is an error value.
pub proof fn law_integer_division(h: Seq<SFrame>, a: i64, b: i64)
    ensures
        b == 0 ==> infix_op(h, SToken::Slash, SObject::Integer(a), SObject::Integer(b)) == SFlow::Val(
            SObject::Error("Division by zero"@),
        ),
        a >= 0 && b > 0 ==> infix_op(h, SToken::Slash, SObject::Integer(a), SObject::Integer(b)) == SFlow::Val(
            SObject::Integer((a as int / b as int) as i64),
        ),
        a < 0 && b > 0 ==> infix_op(h, SToken::Slash, SObject::Integer(a), SObject::Integer(b)) == SFlow::Val(
            SObject::Integer((-((-a) as int / b as int)) as i64),
        ),
        a >= 0 && b < 0 ==> infix_op(h, SToken::Slash, SObject::Integer(a), SObject::Integer(b)) == SFlow::Val(
            SObject::Integer((-(a as int / (-b) as int)) as i64),
        ),
        a < 0 && b < 0 && !(a == i64::MIN && b == -1) ==> infix_op(h, SToken::Slash, SObject::Integer(a), SObject::Integer(b))
            == SFlow::Val(SObject::Integer(((-a) as int / (-b) as int) as i64)),
{
    if a >= 0 && b > 0 {
        assert(0 <= a as int / b as int <= a) by (nonlinear_arith)
            requires a >= 0, b > 0;
    }
    if a < 0 && b > 0 {
        assert(0 <= (-a) as int / b as int <= -a) by (nonlinear_arith)
            requires a < 0, b > 0;
    }
    if a >= 0 && b < 0 {
        assert(0 <= a as int / (-b) as int <= a) by (nonlinear_arith)
            requires a >= 0, b < 0;
    }
    if a < 0 && b < 0 && !(a == i64::MIN && b == -1) {
        assert(0 <= (-a) as int / (-b) as int <= -a) by (nonlinear_arith)
            requires a < 0, b < 0;
        if a == i64::MIN {
            assert((-a) as int / (-b) as int <= (-a) as int / 2) by (nonlinear_arith)
                requires a < 0, b <= -2;
        }
    }
}

/// Comparisons of integers are the mathematical ones.
pub proof fn law_integer_comparison(h: Seq<SFrame>, a: i64, b: i64)
    ensures
        infix_op(h, SToken::Lt, SObject::Integer(a), SObject::Integer(b)) == SFlow::Val(SObject::Boolean(a < b)),
        infix_op(h, SToken::Gt, SObject::Integer(a), SObject::Integer(b)) == SFlow::Val(SObject::Boolean(a > b)),
        infix_op(h, SToken::Eq, SObject::Integer(a), SObject::Integer(b)) == SFlow::Val(SObject::Boolean(a == b)),
        infix_op(h, SToken::NotEq, SObject::Integer(a), SObject::Integer(b)) == SFlow::Val(SObject::Boolean(a != b)),
{
}

/// Unary minus negates an integer; only the smallest integer, whose negation does not fit,
/// crashes.
pub proof fn law_negation(h: Seq<SFrame>, a: i64)
    ensures
        a != i64::MIN ==> prefix_op(h, SToken::Minus, SObject::Integer(a)) == SFlow::Val(SObject::Integer((0 - a) as i64)),
        a == i64::MIN ==> prefix_op(h, SToken::Minus, SObject::Integer(a)) is Crash,
{
}

/// Two strings are equal exactly when they have the same length and the same character at
/// every place; `!=` is the negation, and `+` joins them, the first one's characters first.
pub proof fn law_strings(h: Seq<SFrame>, a: Seq<char>, b: Seq<char>)
    ensures
        infix_op(h, SToken::Eq, SObject::Str(a), SObject::Str(b)) == SFlow::Val(
            SObject::Boolean(a.len() == b.len() && forall|i: int| 0 <= i < a.len() ==> a[i] == b[i]),
        ),
        infix_op(h, SToken::NotEq, SObject::Str(a), SObject::Str(b)) == SFlow::Val(
            SObject::Boolean(!(a.len() == b.len() && forall|i: int| 0 <= i < a.len() ==> a[i] == b[i])),
        ),
        infix_op(h, SToken::Plus, SObject::Str(a), SObject::Str(b)) matches SFlow::Val(SObject::Str(c)) && c.len()
            == a.len() + b.len() && (forall|i: int| 0 <= i < a.len() ==> c[i] == a[i]) && (forall|i: int|
            0 <= i < b.len() ==> c[a.len() + i] == b[i]),
{
    if a.len() == b.len() && forall|i: int| 0 <= i < a.len() ==> a[i] == b[i] {
        assert(a =~= b);
    }
}

/// Two booleans compare equal exactly when they are the same.
pub proof fn law_booleans(h: Seq<SFrame>, a: bool, b: bool)
    ensures
        infix_op(h, SToken::Eq, SObject::Boolean(a), SObject::Boolean(b)) == SFlow::Val(SObject::Boolean(a == b)),
        infix_op(h, SToken::NotEq, SObject::Boolean(a), SObject::Boolean(b)) == SFlow::Val(SObject::Boolean(a != b)),
{
}

/// `null` and `false` are the only values a `when` or a `while` takes as false.
pub proof fn law_truthiness(o: SObject)
    ensures
        truthy(o) <==> !(o == SObject::Null || o == SObject::Boolean(false)),
{
}

// ---------------------------------------------------------------------------
// Indexing.
// ---------------------------------------------------------------------------

/// An array read at a place within it gives the element there, and outside it gives `null`.
pub proof fn law_array_index(h: Seq<SFrame>, elems: Seq<SObject>, k: i64)
    ensures
        0 <= k < elems.len() ==> index_op(h, SObject::Array(elems), SObject::Integer(k)) == elems[k as int],
        !(0 <= k < elems.len()) ==> index_op(h, SObject::Array(elems), SObject::Integer(k)) == SObject::Null,
{
}

/// Integers, strings and booleans are the keys of hashes, each standing for itself.
pub proof fn law_hash_keys(n: i64, s: Seq<char>, b: bool)
    ensures
        spec_hash_key(SObject::Integer(n)) == Some(SHashKey::Integer(n)),
        spec_hash_key(SObject::Str(s)) == Some(SHashKey::Str(s)),
        spec_hash_key(SObject::Boolean(b)) == Some(SHashKey::Boolean(b)),
        spec_hash_key(SObject::Null) is None,
{
}

/// A hash read at a key gives the value of the first pair with that key, wherever that pair
/// stands, and `null` when no pair has it.
pub proof fn law_hash_index(h: Seq<SFrame>, pairs: Seq<(SHashKey, SObject)>, i: SObject, k: SHashKey, j: int)
    requires
        spec_hash_key(i) == Some(k),
    ensures
        0 <= j < pairs.len() && pairs[j].0 == k && (forall|x: int| 0 <= x < j ==> pairs[x].0 != k) ==> index_op(
            h,
            SObject::Hash(pairs),
            i,
        ) == pairs[j].1,
        (forall|x: int| 0 <= x < pairs.len() ==> pairs[x].0 != k) ==> index_op(h, SObject::Hash(pairs), i)
            == SObject::Null,
{
    if 0 <= j < pairs.len() && pairs[j].0 == k && (forall|x: int| 0 <= x < j ==> pairs[x].0 != k) {
        lemma_hash_find_at(pairs, k, j);
    }
    if forall|x: int| 0 <= x < pairs.len() ==> pairs[x].0 != k {
        lemma_hash_find_none(pairs, k);
    }
}

/// Reading a hash at the key just stored gives the value stored; reading it at another key
/// gives what it gave before.
pub proof fn law_hash_store_then_index(
    h: Seq<SFrame>,
    pairs: Seq<(SHashKey, SObject)>,
    k: SHashKey,
    v: SObject,
    i: SObject,
)
    requires
        spec_hash_key(i) is Some,
    ensures
        spec_hash_key(i) == Some(k) ==> index_op(h, SObject::Hash(hash_insert(pairs, k, v)), i) == v,
        spec_hash_key(i) != Some(k) ==> index_op(h, SObject::Hash(hash_insert(pairs, k, v)), i) == index_op(
            h,
            SObject::Hash(pairs),
            i,
        ),
{
    lemma_hash_get_insert(pairs, k, v, spec_hash_key(i)->0);
    lemma_hash_find(pairs, k);
}

// ---------------------------------------------------------------------------
// Properties.
// ---------------------------------------------------------------------------

/// An instance's own binding of a property is what reading the property gives, whatever its
/// class binds; a module's binding is what reading a module's property gives.
pub proof fn law_member_own_binding(h: Seq<SFrame>, cn: Seq<char>, ce: nat, ie: nat, m: nat, prop: Seq<char>)
    ensures
        ie < h.len() && h[ie as int].vars.contains_key(prop) ==> member_value(
            h,
            SObject::Instance { class_name: cn, class_env: ce, instance_env: ie },
            prop,
        ) == SFlow::Val(h[ie as int].vars[prop]),
        m < h.len() && h[m as int].vars.contains_key(prop) ==> member_value(h, SObject::Module(m), prop)
            == SFlow::Val(h[m as int].vars[prop]),
{
}

/// After `let inst.prop = v`, reading `inst.prop` gives `v`, even where the class binds `prop`.
pub proof fn law_member_after_assign(
    h: Seq<SFrame>,
    cn: Seq<char>,
    ce: nat,
    ie: nat,
    prop: Seq<char>,
    v: SObject,
)
    requires
        ie < h.len(),
    ensures
        member_value(
            heap_set(h, ie, prop, v),
            SObject::Instance { class_name: cn, class_env: ce, instance_env: ie },
            prop,
        ) == SFlow::Val(v),
{
    lemma_lookup_after_set(h, ie, prop, v);
}

/// A property that the instance does not bind comes from its class; a function found there
/// comes bound to the instance.
pub proof fn law_member_from_class(h: Seq<SFrame>, cn: Seq<char>, ce: nat, ie: nat, prop: Seq<char>)
    requires
        ie < h.len(),
        h[ie as int].vars.contains_key(prop) == false,
        h[ie as int].outer is None,
        ce < h.len(),
        h[ce as int].vars.contains_key(prop),
    ensures
        ({
            let inst = SObject::Instance { class_name: cn, class_env: ce, instance_env: ie };
            let v = h[ce as int].vars[prop];
            member_value(h, inst, prop) == if v is Function {
                SFlow::Val(SObject::BoundMethod { instance: Box::new(inst), method: Box::new(v) })
            } else {
                SFlow::Val(v)
            }
        }),
{
}

// ---------------------------------------------------------------------------
// Precedence of the parser.
// ---------------------------------------------------------------------------

/// `-` binds as `+` does, `*` as `/` does, and the second pair more strongly than the first;
/// comparisons bind more weakly than both.
pub proof fn law_precedence_order()
    ensures
        prec_of(SToken::Minus) == prec_of(SToken::Plus),
        prec_of(SToken::Slash) == prec_of(SToken::Asterisk),
        prec_of(SToken::Plus) < prec_of(SToken::Asterisk),
        prec_of(SToken::Lt) < prec_of(SToken::Plus),
        prec_of(SToken::Gt) == prec_of(SToken::Lt),
        prec_of(SToken::Eq) < prec_of(SToken::Lt),
        prec_of(SToken::NotEq) == prec_of(SToken::Eq),
        prec_of(SToken::Eq) > 0,
{
}

/// Where the tokens from the parser's place on are `a op1 b op2 c` followed by a token that is
/// no infix operator, the expression there is `a op1 (b op2 c)` when `op2` binds more strongly
/// than `op1`, and `(a op1 b) op2 c` when it binds no more strongly.
pub proof fn law_three_operands(src: Src, st: PS, a: i64, op1: SToken, b: i64, op2: SToken, c: i64)
    requires
        tok(src, st.k) == SToken::Int(a),
        tok(src, st.k + 1) == op1,
        tok(src, st.k + 2) == SToken::Int(b),
        tok(src, st.k + 3) == op2,
        tok(src, st.k + 4) == SToken::Int(c),
        prec_of(tok(src, st.k + 5)) == 0,
        op1 == SToken::Plus || op1 == SToken::Minus || op1 == SToken::Asterisk || op1 == SToken::Slash
            || op1 == SToken::Lt || op1 == SToken::Gt || op1 == SToken::Eq || op1 == SToken::NotEq,
        op2 == SToken::Plus || op2 == SToken::Minus || op2 == SToken::Asterisk || op2 == SToken::Slash
            || op2 == SToken::Lt || op2 == SToken::Gt || op2 == SToken::Eq || op2 == SToken::NotEq,
    ensures
        prec_of(op1) < prec_of(op2) ==> p_expression(src, 0, st).0 == Some(
            SExpr::Infix {
                left: Box::new(SExpr::Integer(a)),
                operator: op1,
                right: Box::new(
                    SExpr::Infix { left: Box::new(SExpr::Integer(b)), operator: op2, right: Box::new(SExpr::Integer(c)) },
                ),
            },
        ),
        prec_of(op2) <= prec_of(op1) ==> p_expression(src, 0, st).0 == Some(
            SExpr::Infix {
                left: Box::new(
                    SExpr::Infix { left: Box::new(SExpr::Integer(a)), operator: op1, right: Box::new(SExpr::Integer(b)) },
                ),
                operator: op2,
                right: Box::new(SExpr::Integer(c)),
            },
        ),
{
    let s1 = adv(st);
    let s2 = adv(s1);
    let s3 = adv(s2);
    let s4 = adv(s3);
    let ea = SExpr::Integer(a);
    let eb = SExpr::Integer(b);
    let ec = SExpr::Integer(c);
    assert(cur(src, st) == SToken::Int(a));
    assert(cur(src, s2) == SToken::Int(b));
    assert(cur(src, s4) == SToken::Int(c));
    assert(peek(src, st) == op1);
    assert(peek(src, s2) == op2);
    assert(peek(src, s4) == tok(src, st.k + 5));
    assert(cur(src, s1) == op1);
    assert(cur(src, s3) == op2);
    assert(p_operand(src, st) == (Some(ea), st));
    assert(p_operand(src, s2) == (Some(eb), s2));
    assert(p_operand(src, s4) == (Some(ec), s4));
    // the last operand stands alone at any binding strength
    assert(p_infix_loop(src, prec_of(op2), Some(ec), s4) == (Some(ec), s4));
    assert(p_expression(src, prec_of(op2), s4) == (Some(ec), s4));
    let bc = SExpr::Infix { left: Box::new(eb), operator: op2, right: Box::new(ec) };
    assert(p_infix(src, eb, s3) == (Some(bc), s4));
    if prec_of(op1) < prec_of(op2) {
        let abc = SExpr::Infix { left: Box::new(ea), operator: op1, right: Box::new(bc) };
        assert(p_infix_loop(src, prec_of(op1), Some(bc), s4) == (Some(bc), s4));
        assert(p_infix_loop(src, prec_of(op1), Some(eb), s2) == (Some(bc), s4));
        assert(p_expression(src, prec_of(op1), s2) == (Some(bc), s4));
        assert(p_infix(src, ea, s1) == (Some(abc), s4));
        assert(p_infix_loop(src, 0, Some(abc), s4) == (Some(abc), s4));
        assert(p_infix_loop(src, 0, Some(ea), st) == (Some(abc), s4));
    } else {
        let ab = SExpr::Infix { left: Box::new(ea), operator: op1, right: Box::new(eb) };
        let abc = SExpr::Infix { left: Box::new(ab), operator: op2, right: Box::new(ec) };
        assert(p_infix_loop(src, prec_of(op1), Some(eb), s2) == (Some(eb), s2));
        assert(p_expression(src, prec_of(op1), s2) == (Some(eb), s2));
        assert(p_infix(src, ea, s1) == (Some(ab), s2));
        assert(p_infix(src, ab, s3) == (Some(abc), s4));
        assert(p_infix_loop(src, 0, Some(abc), s4) == (Some(abc), s4));
        assert(p_infix_loop(src, 0, Some(ab), s2) == (Some(abc), s4));
        assert(p_infix_loop(src, 0, Some(ea), st) == (Some(abc), s4));
    }
}


/// Arithmetic parses as in school: where the tokens from the parser's place on are
/// `a op1 b op2 c` with `+`, `-`, `*` or `/` between integers, followed by a token that is no
/// infix operator, a `*` or `/` after a `+` or `-` takes `b` and `c` first, as in
/// `10 - 2 * 3 = 10 - (2 * 3)`; otherwise the operators apply from the left, as in
/// `10 - 2 - 3 = (10 - 2) - 3` and `10 * 2 - 3 = (10 * 2) - 3`.
pub proof fn law_arithmetic_parse(src: Src, st: PS, a: i64, op1: SToken, b: i64, op2: SToken, c: i64)
    requires
        tok(src, st.k) == SToken::Int(a),
        tok(src, st.k + 1) == op1,
        tok(src, st.k + 2) == SToken::Int(b),
        tok(src, st.k + 3) == op2,
        tok(src, st.k + 4) == SToken::Int(c),
        prec_of(tok(src, st.k + 5)) == 0,
        op1 == SToken::Plus || op1 == SToken::Minus || op1 == SToken::Asterisk || op1 == SToken::Slash,
        op2 == SToken::Plus || op2 == SToken::Minus || op2 == SToken::Asterisk || op2 == SToken::Slash,
    ensures
        (op1 == SToken::Plus || op1 == SToken::Minus) && (op2 == SToken::Asterisk || op2 == SToken::Slash)
            ==> p_expression(src, 0, st).0 == Some(
            SExpr::Infix {
                left: Box::new(SExpr::Integer(a)),
                operator: op1,
                right: Box::new(
                    SExpr::Infix { left: Box::new(SExpr::Integer(b)), operator: op2, right: Box::new(SExpr::Integer(c)) },
                ),
            },
        ),
        !((op1 == SToken::Plus || op1 == SToken::Minus) && (op2 == SToken::Asterisk || op2 == SToken::Slash))
            ==> p_expression(src, 0, st).0 == Some(
            SExpr::Infix {
                left: Box::new(
                    SExpr::Infix { left: Box::new(SExpr::Integer(a)), operator: op1, right: Box::new(SExpr::Integer(b)) },
                ),
                operator: op2,
                right: Box::new(SExpr::Integer(c)),
            },
        ),
{
    law_three_operands(src, st, a, op1, b, op2, c);
}


// ---------------------------------------------------------------------------
// Numbers written and read, the lexer's symbols, and `len`.
// ---------------------------------------------------------------------------

/// A number is written in decimal: a non-negative number as digits with no leading zero
/// (but for zero itself) whose value in base ten is the number, a negative one as `-` and the
/// digits of its magnitude.
pub proof fn law_decimal(n: int)
    ensures
        n >= 0 ==> decimal(n).len() >= 1 && (forall|i: int| 0 <= i < decimal(n).len() ==> is_digit_char(
            #[trigger] decimal(n)[i],
        )) && digits_value(decimal(n)) == n && (decimal(n)[0] == '0' ==> n == 0),
        n < 0 ==> decimal(n) == seq!['-'] + decimal(-n),
    decreases (if n < 0 { -n + 1 } else { n }),
{
    if n >= 10 {
        law_decimal(n / 10);
        let s = decimal(n / 10);
        let d = n % 10;
        let c = (('0' as int) + d) as char;
        assert(decimal(n) == s + seq![c]);
        assert((s + seq![c]).drop_last() =~= s);
        assert((s + seq![c]).last() == c);
        assert(c as int == '0' as int + d);
        assert(n == (n / 10) * 10 + d);
        assert forall|i: int| 0 <= i < decimal(n).len() implies is_digit_char(#[trigger] decimal(n)[i]) by {
            if i < s.len() {
                assert(decimal(n)[i] == s[i]);
            }
        }
        assert(decimal(n)[0] == s[0]);
        assert(n / 10 >= 1);
        assert(digits_value(decimal(n)) == digits_value(s) * 10 + (c as int - '0' as int));
    } else if n >= 0 {
        let c = (('0' as int) + n) as char;
        assert(decimal(n) == seq![c]);
        assert(seq![c].drop_last() =~= Seq::<char>::empty());
        assert(c as int == '0' as int + n);
        assert(digits_value(seq![c]) == digits_value(Seq::<char>::empty()) * 10 + (c as int - '0' as int));
    } else {
        law_decimal(-n);
    }
}

/// The lexer reads each operator symbol as its token, `==` and `!=` as one token each, a lone
/// `=` as assignment, and skips whitespace.
pub proof fn law_lexer_symbols(input: Seq<char>, p: nat)
    requires
        p < input.len(),
    ensures
        input[p as int] == '+' ==> next_token_at(input, p) == (SToken::Plus, p + 1),
        input[p as int] == '-' ==> next_token_at(input, p) == (SToken::Minus, p + 1),
        input[p as int] == '*' ==> next_token_at(input, p) == (SToken::Asterisk, p + 1),
        input[p as int] == '/' ==> next_token_at(input, p) == (SToken::Slash, p + 1),
        input[p as int] == '<' ==> next_token_at(input, p) == (SToken::Lt, p + 1),
        input[p as int] == '>' ==> next_token_at(input, p) == (SToken::Gt, p + 1),
        input[p as int] == '(' ==> next_token_at(input, p) == (SToken::LParen, p + 1),
        input[p as int] == ')' ==> next_token_at(input, p) == (SToken::RParen, p + 1),
        input[p as int] == '[' ==> next_token_at(input, p) == (SToken::LBracket, p + 1),
        input[p as int] == ']' ==> next_token_at(input, p) == (SToken::RBracket, p + 1),
        input[p as int] == '{' ==> next_token_at(input, p) == (SToken::LBrace, p + 1),
        input[p as int] == '}' ==> next_token_at(input, p) == (SToken::RBrace, p + 1),
        input[p as int] == ':' ==> next_token_at(input, p) == (SToken::Colon, p + 1),
        input[p as int] == ',' ==> next_token_at(input, p) == (SToken::Comma, p + 1),
        input[p as int] == '.' ==> next_token_at(input, p) == (SToken::Dot, p + 1),
        input[p as int] == '=' && p + 1 < input.len() && input[p + 1int] == '=' ==> next_token_at(input, p) == (
            SToken::Eq,
            p + 2,
        ),
        input[p as int] == '=' && !(p + 1 < input.len() && input[p + 1int] == '=') ==> next_token_at(input, p) == (
            SToken::Assign,
            p + 1,
        ),
        input[p as int] == '!' && p + 1 < input.len() && input[p + 1int] == '=' ==> next_token_at(input, p) == (
            SToken::NotEq,
            p + 2,
        ),
        input[p as int] == ' ' || input[p as int] == '\t' || input[p as int] == '\n' || input[p as int] == '\r'
            ==> next_token_at(input, p) == next_token_at(input, p + 1),
{
    reveal(next_token_at);
}

/// `len` of a string of ASCII characters is its number of characters.
pub proof fn law_len_ascii(s: Seq<char>, rs: Seq<SReply>, st: SState)
    requires
        vstd::utf8::is_ascii_chars(s),
        s.len() < 0x8000_0000,
    ensures
        builtin_call(Builtin::Len, seq![SObject::Str(s)], rs, st) == (SFlow::Val(SObject::Integer(s.len() as i64)), st),
{
    vstd::utf8::is_ascii_chars_encode_utf8(s);
}


/// A `while` tests its condition first: a `null` or `false` condition ends it with `null`, an
/// error in the condition is its value, and otherwise its body runs once and the loop goes on
/// from the state the body left, unless the body returned or failed, which ends the loop with
/// that result.
pub proof fn law_while_step(f: nat, cond: SExpr, body: SStmt, env: nat, rs: Seq<SReply>, st: SState)
    requires
        f >= 2,
    ensures
        ({
            let w = SExpr::WhileExpression { condition: Box::new(cond), body: Box::new(body) };
            let (c, st1) = ev_expr((f - 2) as nat, cond, env, rs, st);
            let (r, st2) = ev_stmt((f - 2) as nat, body, env, rs, st1);
            match c {
                SFlow::Val(SObject::Error(_)) => ev_expr(f, w, env, rs, st) == (c, st1),
                SFlow::Val(SObject::Null) => ev_expr(f, w, env, rs, st) == (SFlow::Val(SObject::Null), st1),
                SFlow::Val(SObject::Boolean(false)) => ev_expr(f, w, env, rs, st) == (
                    SFlow::Val(SObject::Null),
                    st1,
                ),
                SFlow::Val(_) => match r {
                    SFlow::Val(SObject::ReturnValue(_)) => ev_expr(f, w, env, rs, st) == (r, st2),
                    SFlow::Val(SObject::Error(_)) => ev_expr(f, w, env, rs, st) == (r, st2),
                    SFlow::Val(_) => ev_expr(f, w, env, rs, st) == ev_expr((f - 1) as nat, w, env, rs, st2),
                    _ => ev_expr(f, w, env, rs, st) == (r, st2),
                },
                _ => ev_expr(f, w, env, rs, st) == (c, st1),
            }
        }),
{
}

/// How values are shown: `null`, `true`, `false`, strings as they are, integers in decimal,
/// errors after `ERROR: `, and arrays in brackets with their elements separated by `, `.
pub proof fn law_display(n: i64, s: Seq<char>, e: Seq<char>, a: SObject, b: SObject)
    ensures
        display(SObject::Null) == seq!['n', 'u', 'l', 'l'],
        display(SObject::Boolean(true)) == seq!['t', 'r', 'u', 'e'],
        display(SObject::Boolean(false)) == seq!['f', 'a', 'l', 's', 'e'],
        display(SObject::Str(s)) == s,
        display(SObject::Integer(n)) == decimal(n as int),
        display(SObject::Error(e)) == seq!['E', 'R', 'R', 'O', 'R', ':', ' '] + e,
        display(SObject::Array(Seq::empty())) == seq!['[', ']'],
        display(SObject::Array(seq![a])) == seq!['['] + display(a) + seq![']'],
        display(SObject::Array(seq![a, b])) == seq!['['] + display(a) + seq![',', ' '] + display(b) + seq![']'],
{
    assert(seq![a, b].subrange(0, 1) =~= seq![a]);
    assert(display_list(Seq::<SObject>::empty()) == Seq::<char>::empty());
    assert(seq!['['] + Seq::<char>::empty() + seq![']'] =~= seq!['[', ']']);
    assert(display_list(seq![a]) == display(a));
    assert(display_list(seq![a, b]) == display_list(seq![a]) + seq![',', ' '] + display(b));
}

/// A prefix `-` binds more strongly than every infix operator between values: where the
/// tokens from the parser's place on are `- a op b` followed by a token that is no infix
/// operator, the expression there is `(-a) op b`.
pub proof fn law_prefix_binds_first(src: Src, st: PS, a: i64, op: SToken, b: i64)
    requires
        tok(src, st.k) == SToken::Minus,
        tok(src, st.k + 1) == SToken::Int(a),
        tok(src, st.k + 2) == op,
        tok(src, st.k + 3) == SToken::Int(b),
        prec_of(tok(src, st.k + 4)) == 0,
        op == SToken::Plus || op == SToken::Minus || op == SToken::Asterisk || op == SToken::Slash
            || op == SToken::Lt || op == SToken::Gt || op == SToken::Eq || op == SToken::NotEq,
    ensures
        p_expression(src, 0, st).0 == Some(
            SExpr::Infix {
                left: Box::new(SExpr::Prefix { operator: SToken::Minus, right: Box::new(SExpr::Integer(a)) }),
                operator: op,
                right: Box::new(SExpr::Integer(b)),
            },
        ),
{
    let s1 = adv(st);
    let s2 = adv(s1);
    let s3 = adv(s2);
    let ea = SExpr::Integer(a);
    let eb = SExpr::Integer(b);
    let na = SExpr::Prefix { operator: SToken::Minus, right: Box::new(ea) };
    let all = SExpr::Infix { left: Box::new(na), operator: op, right: Box::new(eb) };
    assert(cur(src, st) == SToken::Minus);
    assert(cur(src, s1) == SToken::Int(a));
    assert(peek(src, s1) == op);
    assert(peek(src, st) == SToken::Int(a));
    assert(cur(src, s2) == op);
    assert(cur(src, s3) == SToken::Int(b));
    assert(peek(src, s3) == tok(src, st.k + 4));
    assert(p_operand(src, s1) == (Some(ea), s1));
    assert(p_infix_loop(src, prefix_prec(), Some(ea), s1) == (Some(ea), s1));
    assert(p_expression(src, prefix_prec(), s1) == (Some(ea), s1));
    assert(p_prefix(src, st) == (Some(na), s1));
    assert(p_operand(src, st) == (Some(na), s1));
    assert(p_operand(src, s3) == (Some(eb), s3));
    assert(p_infix_loop(src, prec_of(op), Some(eb), s3) == (Some(eb), s3));
    assert(p_expression(src, prec_of(op), s3) == (Some(eb), s3));
    assert(p_infix(src, na, s2) == (Some(all), s3));
    assert(p_infix_loop(src, 0, Some(all), s3) == (Some(all), s3));
    assert(p_infix_loop(src, 0, Some(na), s1) == (Some(all), s3));
}


/// Where the tokens from the parser's place on are `let x = a` followed by a token that is no
/// infix operator, the statement there binds the name `x` to `a`.
pub proof fn law_let_parse(src: Src, st: PS, x: Seq<char>, a: i64)
    requires
        tok(src, st.k) == SToken::Let,
        tok(src, st.k + 1) == SToken::Ident(x),
        tok(src, st.k + 2) == SToken::Assign,
        tok(src, st.k + 3) == SToken::Int(a),
        prec_of(tok(src, st.k + 4)) == 0,
    ensures
        p_statement(src, st).0 == Some(SStmt::Let { name: SExpr::Identifier(x), value: SExpr::Integer(a) }),
{
    let s1 = adv(st);
    let s3 = adv(adv(s1));
    assert(cur(src, st) == SToken::Let);
    assert(cur(src, s1) == SToken::Ident(x));
    assert(peek(src, s1) == SToken::Assign);
    assert(cur(src, s3) == SToken::Int(a));
    assert(peek(src, s3) == tok(src, st.k + 4));
    assert(p_operand(src, s1) == (Some(SExpr::Identifier(x)), s1));
    assert(p_infix_loop(src, 0, Some(SExpr::Identifier(x)), s1) == (Some(SExpr::Identifier(x)), s1));
    assert(p_expression(src, 0, s1) == (Some(SExpr::Identifier(x)), s1));
    assert(p_operand(src, s3) == (Some(SExpr::Integer(a)), s3));
    assert(p_infix_loop(src, 0, Some(SExpr::Integer(a)), s3) == (Some(SExpr::Integer(a)), s3));
    assert(p_expression(src, 0, s3) == (Some(SExpr::Integer(a)), s3));
    assert(p_let(src, st).0 == Some(SStmt::Let { name: SExpr::Identifier(x), value: SExpr::Integer(a) }));
}

} // verus!
