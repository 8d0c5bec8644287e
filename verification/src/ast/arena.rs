//! The two node stores of a program, kept in `id_arena` arenas.
//!
//! Nothing in this file is proved: each function states what the arena
//! crate's source shows of one of its methods.

use id_arena::{Arena, ArenaBehavior, DefaultArenaBehavior};
use vstd::prelude::*;

use super::{Expression, ExpressionId, Statement, StatementId};

verus! {

/// `id_arena::Arena`, which Verus takes as a type that it cannot look
/// into.
#[verifier::external_type_specification]
#[verifier::external_body]
#[verifier::reject_recursive_types(T)]
#[verifier::reject_recursive_types(A)]
pub struct ExArena<T, A>(Arena<T, A>);

/// `id_arena::DefaultArenaBehavior`, the second parameter of an arena
/// that issues the crate's own handles. Verus cannot look into it.
#[verifier::external_type_specification]
#[verifier::external_body]
#[verifier::reject_recursive_types(T)]
pub struct ExDefaultArenaBehavior<T>(DefaultArenaBehavior<T>);

/// The statements held by an arena, in the order in which they were allocated.
pub uninterp spec fn statement_arena_items(arena: Arena<Statement>) -> Seq<Statement>;

/// The number that tells this arena's handles from those of other arenas.
pub uninterp spec fn statement_arena_key(arena: Arena<Statement>) -> u32;

/// The expressions held by an arena, in the order in which they were allocated.
pub uninterp spec fn expression_arena_items(arena: Arena<Expression>) -> Seq<Expression>;

/// The number that tells this arena's handles from those of other arenas.
pub uninterp spec fn expression_arena_key(arena: Arena<Expression>) -> u32;

/// `Arena::new`: a fresh arena holds nothing. Its key comes from a
/// process-wide counter, so nothing is said of it.
#[verifier::external_body]
pub(crate) fn new_statement_arena() -> (arena: Arena<Statement>)
    ensures
        statement_arena_items(arena) == Seq::<Statement>::empty(),
{
    Arena::new()
}

/// `Arena::alloc`: the item is appended, the key stays, and the handle that
/// comes back carries the arena's key and the position of the new item.
#[verifier::external_body]
pub(crate) fn alloc_statement(arena: &mut Arena<Statement>, item: Statement) -> (id: StatementId)
    ensures
        statement_arena_items(*final(arena)) == statement_arena_items(*old(arena)).push(item),
        statement_arena_key(*final(arena)) == statement_arena_key(*old(arena)),
        id.arena() == statement_arena_key(*old(arena)),
        id.slot() == statement_arena_items(*old(arena)).len(),
{
    let id = arena.alloc(item);
    StatementId { arena_id: DefaultArenaBehavior::<Statement>::arena_id(id), index: id.index() }
}

/// `Arena::get`: the item at the handle's position when the handle carries
/// this arena's key and the position is taken, nothing otherwise.
#[verifier::external_body]
pub(crate) fn get_statement_in(arena: &Arena<Statement>, id: StatementId) -> (found: Option<&Statement>)
    ensures
        found.is_some() == (id.arena() == statement_arena_key(*arena) && statement_arena_items(
            *arena,
        ).len() > id.slot()),
        found.is_some() ==> *found.unwrap() == statement_arena_items(*arena)[id.slot() as int],
{
    arena.get(DefaultArenaBehavior::<Statement>::new_id(id.arena_id, id.index))
}

/// `Arena::new`: a fresh arena holds nothing. Its key comes from a
/// process-wide counter, so nothing is said of it.
#[verifier::external_body]
pub(crate) fn new_expression_arena() -> (arena: Arena<Expression>)
    ensures
        expression_arena_items(arena) == Seq::<Expression>::empty(),
{
    Arena::new()
}

/// `Arena::alloc`: the item is appended, the key stays, and the handle that
/// comes back carries the arena's key and the position of the new item.
#[verifier::external_body]
pub(crate) fn alloc_expression(arena: &mut Arena<Expression>, item: Expression) -> (id: ExpressionId)
    ensures
        expression_arena_items(*final(arena)) == expression_arena_items(*old(arena)).push(item),
        expression_arena_key(*final(arena)) == expression_arena_key(*old(arena)),
        id.arena() == expression_arena_key(*old(arena)),
        id.slot() == expression_arena_items(*old(arena)).len(),
{
    let id = arena.alloc(item);
    ExpressionId { arena_id: DefaultArenaBehavior::<Expression>::arena_id(id), index: id.index() }
}

/// `Arena::get`: the item at the handle's position when the handle carries
/// this arena's key and the position is taken, nothing otherwise.
#[verifier::external_body]
pub(crate) fn get_expression_in(arena: &Arena<Expression>, id: ExpressionId) -> (found: Option<&Expression>)
    ensures
        found.is_some() == (id.arena() == expression_arena_key(*arena) && expression_arena_items(
            *arena,
        ).len() > id.slot()),
        found.is_some() ==> *found.unwrap() == expression_arena_items(*arena)[id.slot() as int],
{
    arena.get(DefaultArenaBehavior::<Expression>::new_id(id.arena_id, id.index))
}

} // verus!
