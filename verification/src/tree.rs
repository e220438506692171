//! Table trees: what a walk through a well-formed tree yields.

use vstd::prelude::*;
use crate::database::{children_of, leaf_rows, tree_page_of, walk};
use crate::error::{Error, TreeFault};
use crate::page_header::BTreePageType;
use crate::predicate::every_row;
use crate::row::RowView;
use crate::schema::TableInformationView;

verus! {

/// The rows of the table whose tree starts at page `page` and has at most
/// `height` levels of interior pages: the rows of its leaf pages, from the
/// left-most leaf to the right-most. `None` where this is no such tree: a
/// page does not decode, holds a cell that is no row, is an index page, or
/// stands too deep.
pub open spec fn tree_rows(
    file: Seq<u8>,
    page_size: u32,
    page: u32,
    height: nat,
    table: TableInformationView,
) -> Option<Seq<RowView>>
    decreases height, 0nat,
{
    match tree_page_of(file, page_size, page) {
        Err(_) => None,
        Ok(decoded) => match decoded.page_header.page_type {
            BTreePageType::TableLeaf => match leaf_rows(decoded.cells, table, every_row()) {
                Ok(rows) => Some(rows),
                Err(_) => None,
            },
            BTreePageType::TableInterior => if height == 0 {
                None
            } else {
                forest_rows(file, page_size, children_of(decoded), (height - 1) as nat, table)
            },
            _ => None,
        },
    }
}

/// The rows of the trees that start at `pages`, one tree after the other.
pub open spec fn forest_rows(
    file: Seq<u8>,
    page_size: u32,
    pages: Seq<u32>,
    height: nat,
    table: TableInformationView,
) -> Option<Seq<RowView>>
    decreases height, pages.len() + 1,
{
    if pages.len() == 0 {
        Some(Seq::empty())
    } else {
        match (
            tree_rows(file, page_size, pages[0], height, table),
            forest_rows(file, page_size, pages.subrange(1, pages.len() as int), height, table),
        ) {
            (Some(first), Some(rest)) => Some(first + rest),
            _ => None,
        }
    }
}

/// The number of pages of the tree that starts at page `page`.
pub open spec fn tree_size(file: Seq<u8>, page_size: u32, page: u32, height: nat) -> nat
    decreases height, 0nat,
{
    match tree_page_of(file, page_size, page) {
        Err(_) => 1,
        Ok(decoded) => if decoded.page_header.page_type == BTreePageType::TableInterior && height
            > 0 {
            1 + forest_size(file, page_size, children_of(decoded), (height - 1) as nat)
        } else {
            1
        },
    }
}

/// The number of pages of the trees that start at `pages`.
pub open spec fn forest_size(file: Seq<u8>, page_size: u32, pages: Seq<u32>, height: nat) -> nat
    decreases height, pages.len() + 1,
{
    if pages.len() == 0 {
        0
    } else {
        tree_size(file, page_size, pages[0], height) + forest_size(
            file,
            page_size,
            pages.subrange(1, pages.len() as int),
            height,
        )
    }
}

/// A tree of at most `height` levels is one of at most `height + 1`
/// levels, with the same rows and pages.
pub proof fn lemma_tree_taller(
    file: Seq<u8>,
    page_size: u32,
    page: u32,
    height: nat,
    table: TableInformationView,
)
    requires
        tree_rows(file, page_size, page, height, table).is_some(),
    ensures
        tree_rows(file, page_size, page, height + 1, table) == tree_rows(
            file,
            page_size,
            page,
            height,
            table,
        ),
        tree_size(file, page_size, page, height + 1) == tree_size(file, page_size, page, height),
    decreases height, 0nat,
{
    let decoded = tree_page_of(file, page_size, page).unwrap();
    if decoded.page_header.page_type == BTreePageType::TableInterior {
        lemma_forest_taller(file, page_size, children_of(decoded), (height - 1) as nat, table);
    }
}

/// `lemma_tree_taller`, for the trees that start at `pages`.
pub proof fn lemma_forest_taller(
    file: Seq<u8>,
    page_size: u32,
    pages: Seq<u32>,
    height: nat,
    table: TableInformationView,
)
    requires
        forest_rows(file, page_size, pages, height, table).is_some(),
    ensures
        forest_rows(file, page_size, pages, height + 1, table) == forest_rows(
            file,
            page_size,
            pages,
            height,
            table,
        ),
        forest_size(file, page_size, pages, height + 1) == forest_size(
            file,
            page_size,
            pages,
            height,
        ),
    decreases height, pages.len() + 1,
{
    if pages.len() > 0 {
        lemma_tree_taller(file, page_size, pages[0], height, table);
        lemma_forest_taller(file, page_size, pages.subrange(1, pages.len() as int), height, table);
    }
}

/// The rows and the pages of two forests put together are those of the
/// one followed by those of the other.
pub proof fn lemma_forest_append(
    file: Seq<u8>,
    page_size: u32,
    front: Seq<u32>,
    back: Seq<u32>,
    height: nat,
    table: TableInformationView,
)
    requires
        forest_rows(file, page_size, front, height, table).is_some(),
        forest_rows(file, page_size, back, height, table).is_some(),
    ensures
        forest_rows(file, page_size, front + back, height, table) == Some(
            forest_rows(file, page_size, front, height, table).unwrap() + forest_rows(
                file,
                page_size,
                back,
                height,
                table,
            ).unwrap(),
        ),
        forest_size(file, page_size, front + back, height) == forest_size(
            file,
            page_size,
            front,
            height,
        ) + forest_size(file, page_size, back, height),
    decreases front.len(),
{
    if front.len() == 0 {
        assert(front + back =~= back);
        assert(Seq::<RowView>::empty() + forest_rows(
            file,
            page_size,
            back,
            height,
            table,
        ).unwrap() =~= forest_rows(file, page_size, back, height, table).unwrap());
    } else {
        let tail = front.subrange(1, front.len() as int);
        let all = front + back;
        assert(all[0] == front[0]);
        assert(all.subrange(1, all.len() as int) =~= tail + back);
        lemma_forest_append(file, page_size, tail, back, height, table);
        let first = tree_rows(file, page_size, front[0], height, table).unwrap();
        let middle = forest_rows(file, page_size, tail, height, table).unwrap();
        let last = forest_rows(file, page_size, back, height, table).unwrap();
        assert(first + (middle + last) =~= (first + middle) + last);
    }
}

/// A walk that starts with the trees of `forest` before it, the first of
/// them on top of the stack, and has room for their pages, yields the rows
/// of these trees and nothing else.
pub proof fn lemma_walk_forest(
    file: Seq<u8>,
    page_size: u32,
    limit: nat,
    forest: Seq<u32>,
    visited: nat,
    height: nat,
    table: TableInformationView,
)
    requires
        forest_rows(file, page_size, forest, height, table).is_some(),
        visited + forest_size(file, page_size, forest, height) <= limit,
    ensures
        walk(file, page_size, limit, forest.reverse(), visited, table, every_row()) == Ok::<
            Seq<RowView>,
            Error,
        >(forest_rows(file, page_size, forest, height, table).unwrap()),
    decreases forest_size(file, page_size, forest, height),
{
    let stack = forest.reverse();
    if forest.len() > 0 {
        let top = forest[0];
        let rest = forest.subrange(1, forest.len() as int);
        assert(stack.last() == top);
        assert(stack.drop_last() =~= rest.reverse());
        let first = tree_rows(file, page_size, top, height, table).unwrap();
        let others = forest_rows(file, page_size, rest, height, table).unwrap();
        let decoded = tree_page_of(file, page_size, top).unwrap();
        assert(forest_size(file, page_size, forest, height) == tree_size(
            file,
            page_size,
            top,
            height,
        ) + forest_size(file, page_size, rest, height));
        assert(tree_size(file, page_size, top, height) >= 1);
        if decoded.page_header.page_type == BTreePageType::TableLeaf {
            assert(tree_size(file, page_size, top, height) == 1);
            lemma_walk_forest(file, page_size, limit, rest, visited + 1, height, table);
        } else {
            let children = children_of(decoded);
            let below = (height - 1) as nat;
            lemma_forest_taller(file, page_size, children, below, table);
            lemma_forest_append(file, page_size, children, rest, height, table);
            assert((children + rest).reverse() =~= rest.reverse() + children.reverse());
            lemma_walk_forest(file, page_size, limit, children + rest, visited + 1, height, table);
        }
    }
}

/// A scan that lets every row through yields each row of a table once, in
/// the order of the tree, however many pages the table takes, as long as
/// the database holds as many pages as the tree has.
pub proof fn lemma_scan_complete(
    file: Seq<u8>,
    page_size: u32,
    limit: nat,
    root: u32,
    height: nat,
    table: TableInformationView,
)
    requires
        tree_rows(file, page_size, root, height, table).is_some(),
        tree_size(file, page_size, root, height) <= limit,
    ensures
        walk(file, page_size, limit, seq![root], 0, table, every_row()) == Ok::<
            Seq<RowView>,
            Error,
        >(tree_rows(file, page_size, root, height, table).unwrap()),
{
    let forest = seq![root];
    let rows = tree_rows(file, page_size, root, height, table).unwrap();
    assert(forest.subrange(1, 1) =~= Seq::<u32>::empty());
    assert(rows + Seq::<RowView>::empty() =~= rows);
    assert(forest_rows(file, page_size, forest.subrange(1, 1), height, table) == Some(
        Seq::<RowView>::empty(),
    ));
    assert(forest_rows(file, page_size, forest, height, table) == Some(rows));
    assert(forest_size(file, page_size, forest.subrange(1, 1), height) == 0);
    assert(forest_size(file, page_size, forest, height) == tree_size(file, page_size, root, height));
    assert(forest.reverse() =~= forest);
    lemma_walk_forest(file, page_size, limit, forest, 0, height, table);
}

/// The bound on the pages only cuts a walk short: a walk that ends
/// without running into the bound ends in the same way under any larger
/// bound.
pub proof fn lemma_walk_larger_limit(
    file: Seq<u8>,
    page_size: u32,
    limit: nat,
    larger: nat,
    stack: Seq<u32>,
    visited: nat,
    table: TableInformationView,
    accepts: spec_fn(RowView) -> bool,
)
    requires
        limit <= larger,
        walk(file, page_size, limit, stack, visited, table, accepts) != Err::<Seq<RowView>, Error>(
            Error::CorruptTree(TreeFault::Cycle),
        ),
    ensures
        walk(file, page_size, larger, stack, visited, table, accepts) == walk(
            file,
            page_size,
            limit,
            stack,
            visited,
            table,
            accepts,
        ),
    decreases limit - visited,
{
    if stack.len() > 0 && visited < limit {
        let rest = stack.drop_last();
        if let Ok(decoded) = tree_page_of(file, page_size, stack.last()) {
            match decoded.page_header.page_type {
                BTreePageType::TableLeaf => {
                    if leaf_rows(decoded.cells, table, accepts).is_ok() {
                        lemma_walk_larger_limit(
                            file,
                            page_size,
                            limit,
                            larger,
                            rest,
                            visited + 1,
                            table,
                            accepts,
                        );
                    }
                },
                BTreePageType::IndexLeaf => {
                    lemma_walk_larger_limit(
                        file,
                        page_size,
                        limit,
                        larger,
                        rest,
                        visited + 1,
                        table,
                        accepts,
                    );
                },
                _ => {
                    lemma_walk_larger_limit(
                        file,
                        page_size,
                        limit,
                        larger,
                        rest + children_of(decoded).reverse(),
                        visited + 1,
                        table,
                        accepts,
                    );
                },
            }
        }
    }
}

/// A walk that has an interior page before it which is its own child
/// never ends well: it fails, with `CorruptTree` at the latest when as
/// many pages are visited as the database holds.
pub proof fn lemma_own_child_fails(
    file: Seq<u8>,
    page_size: u32,
    limit: nat,
    stack: Seq<u32>,
    visited: nat,
    table: TableInformationView,
    accepts: spec_fn(RowView) -> bool,
    page: u32,
)
    requires
        tree_page_of(file, page_size, page) matches Ok(decoded)
            && decoded.page_header.page_type.is_interior() && children_of(decoded).contains(page),
        stack.contains(page),
    ensures
        walk(file, page_size, limit, stack, visited, table, accepts).is_err(),
    decreases limit - visited,
{
    let at = choose|i: int| 0 <= i < stack.len() && stack[i] == page;
    if visited < limit {
        let top = stack.last();
        let rest = stack.drop_last();
        if let Ok(decoded) = tree_page_of(file, page_size, top) {
            if decoded.page_header.page_type.is_interior() {
                let children = children_of(decoded);
                let next = rest + children.reverse();
                if top == page {
                    let child = choose|i: int| 0 <= i < children.len() && children[i] == page;
                    assert(children.reverse()[children.len() - 1 - child] == page);
                    assert(next[rest.len() + children.len() - 1 - child] == page);
                } else {
                    assert(rest[at] == page);
                    assert(next[at] == page);
                }
                lemma_own_child_fails(
                    file,
                    page_size,
                    limit,
                    next,
                    visited + 1,
                    table,
                    accepts,
                    page,
                );
            } else {
                assert(rest[at] == page);
                lemma_own_child_fails(
                    file,
                    page_size,
                    limit,
                    rest,
                    visited + 1,
                    table,
                    accepts,
                    page,
                );
            }
        }
    }
}

} // verus!
