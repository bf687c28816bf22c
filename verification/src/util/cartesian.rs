//! Lazy enumeration of the pairs of one or two collections.
//!
//! Both enumerators walk index pairs and hand out references; nothing is
//! allocated until a caller asks for the remaining pairs as a vector.

use vstd::prelude::*;
use vstd::arithmetic::div_mod::lemma_fundamental_div_mod_converse;

verus! {

/// Every `(a, b)` with `a` from `left` and `b` from `right`, row by row: for
/// each `a` in order, all `b` in order.
pub open spec fn product_pairs<T, S>(left: Seq<T>, right: Seq<S>) -> Seq<(T, S)> {
    Seq::new(
        left.len() * right.len(),
        |k: int| (left[k / (right.len() as int)], right[k % (right.len() as int)]),
    )
}

/// Where the pair of `left[i]` and `right[j]` stands in the product.
pub open spec fn product_rank(columns: int, i: int, j: int) -> int {
    i * columns + j
}

/// The pair of `left[i]` and `right[j]` stands at its rank.
pub proof fn lemma_product_pairs_at<T, S>(left: Seq<T>, right: Seq<S>, i: int, j: int)
    requires
        0 <= i < left.len(),
        0 <= j < right.len(),
    ensures
        0 <= product_rank(right.len() as int, i, j) < product_pairs(left, right).len(),
        product_pairs(left, right)[product_rank(right.len() as int, i, j)] == (left[i], right[j]),
{
    let n = left.len() as int;
    let m = right.len() as int;
    let k = i * m + j;
    assert(0 <= i * m && (i + 1) * m <= n * m && (i + 1) * m == i * m + m) by (nonlinear_arith)
        requires
            0 <= i < n,
            0 < m,
    ;
    lemma_fundamental_div_mod_converse(k, m, i, j);
}

/// Every position of the product is the rank of exactly one pair of indices.
pub proof fn lemma_product_pairs_covered<T, S>(left: Seq<T>, right: Seq<S>, k: int)
    requires
        0 <= k < product_pairs(left, right).len(),
    ensures
        0 < right.len(),
        0 <= k / (right.len() as int) < left.len(),
        0 <= k % (right.len() as int) < right.len(),
        k == product_rank(right.len() as int, k / (right.len() as int), k % (right.len() as int)),
        forall|i: int, j: int|
            0 <= i < left.len() && 0 <= j < right.len() && product_rank(right.len() as int, i, j)
                == k ==> i == k / (right.len() as int) && j == k % (right.len() as int),
{
    let n = left.len() as int;
    let m = right.len() as int;
    assert(m > 0) by (nonlinear_arith)
        requires
            0 <= k < n * m,
            0 <= m,
    ;
    assert(k / m < n && 0 <= k / m && k == (k / m) * m + k % m) by (nonlinear_arith)
        requires
            0 <= k < n * m,
            0 < m,
    ;
    assert forall|i: int, j: int|
        0 <= i < left.len() && 0 <= j < right.len() && product_rank(m, i, j) == k implies i == k
            / m && j == k % m by {
        lemma_fundamental_div_mod_converse(k, m, i, j);
    }
}

/// A walk through the product of two slices.
pub struct Product<'l, 'r, T, S> {
    left: &'l [T],
    right: &'r [S],
    row: usize,
    col: usize,
}

impl<'l, 'r, T, S> Product<'l, 'r, T, S> {
    /// The walk stands on a pair or past the last one.
    pub closed spec fn wf(&self) -> bool {
        if self.row < self.left@.len() {
            self.col < self.right@.len()
        } else {
            self.row == self.left@.len() && self.col == 0
        }
    }

    /// All pairs of the walk, from its start.
    pub closed spec fn pairs(&self) -> Seq<(T, S)> {
        product_pairs(self.left@, self.right@)
    }

    /// How many pairs have been handed out.
    pub closed spec fn position(&self) -> int {
        self.row * self.right@.len() + self.col
    }

    /// The position never passes the end.
    pub proof fn lemma_position_in_range(&self)
        requires
            self.wf(),
        ensures
            0 <= self.position() <= self.pairs().len(),
    {
        let n = self.left@.len() as int;
        let m = self.right@.len() as int;
        let i = self.row as int;
        assert(0 <= i * m && (i < n ==> (i + 1) * m <= n * m) && (i + 1) * m == i * m + m)
            by (nonlinear_arith)
            requires
                0 <= i <= n,
                0 <= m,
        ;
    }

    /// Hands out the next pair, or `None` after the last.
    pub fn next(&mut self) -> (r: Option<(&'l T, &'r S)>)
        requires
            old(self).wf(),
        ensures
            final(self).wf(),
            final(self).pairs() == old(self).pairs(),
            match r {
                Some(pair) => {
                    &&& old(self).position() < old(self).pairs().len()
                    &&& (*pair.0, *pair.1) == old(self).pairs()[old(self).position()]
                    &&& final(self).position() == old(self).position() + 1
                },
                None => {
                    &&& old(self).position() == old(self).pairs().len()
                    &&& final(self).position() == old(self).position()
                },
            },
    {
        if self.row >= self.left.len() {
            proof {
                assert(self.left@.len() * self.right@.len() == self.row * self.right@.len() + 0);
            }
            return None;
        }
        proof {
            lemma_product_pairs_at(self.left@, self.right@, self.row as int, self.col as int);
        }
        let a = &self.left[self.row];
        let b = &self.right[self.col];
        let ghost i = self.row as int;
        let ghost m = self.right@.len() as int;
        if self.col + 1 < self.right.len() {
            self.col = self.col + 1;
        } else {
            self.col = 0;
            self.row = self.row + 1;
            proof {
                assert((i + 1) * m == i * m + m) by (nonlinear_arith);
            }
        }
        Some((a, b))
    }

    /// The pairs that the walk has not handed out yet, in order.
    pub fn into_vec(self) -> (v: Vec<(&'l T, &'r S)>)
        requires
            self.wf(),
        ensures
            v@.len() == self.pairs().len() - self.position(),
            forall|k: int|
                0 <= k < v@.len() ==> (*(#[trigger] v@[k]).0, *v@[k].1) == self.pairs()[
                    self.position() + k],
    {
        let mut walk = self;
        let mut v: Vec<(&'l T, &'r S)> = Vec::new();
        proof {
            walk.lemma_position_in_range();
        }
        loop
            invariant
                walk.wf(),
                walk.pairs() == self.pairs(),
                self.position() <= walk.position() <= self.pairs().len(),
                v@.len() == walk.position() - self.position(),
                forall|k: int|
                    0 <= k < v@.len() ==> (*(#[trigger] v@[k]).0, *v@[k].1) == self.pairs()[
                        self.position() + k],
            ensures
                walk.position() == self.pairs().len(),
                v@.len() == walk.position() - self.position(),
                forall|k: int|
                    0 <= k < v@.len() ==> (*(#[trigger] v@[k]).0, *v@[k].1) == self.pairs()[
                        self.position() + k],
            decreases self.pairs().len() - walk.position(),
        {
            match walk.next() {
                Some(pair) => {
                    v.push(pair);
                },
                None => {
                    break ;
                },
            }
        }
        v
    }
}

/// Starts a walk through every pair of an element of `tt0` with an element
/// of `tt1`, row by row.
pub fn product<'l, 'r, T, S>(tt0: &'l [T], tt1: &'r [S]) -> (walk: Product<'l, 'r, T, S>)
    ensures
        walk.wf(),
        walk.pairs() == product_pairs(tt0@, tt1@),
        walk.position() == 0,
{
    let row: usize = if tt1.len() == 0 {
        tt0.len()
    } else {
        0
    };
    proof {
        assert(tt0@.len() * 0 == 0) by (nonlinear_arith);
        assert(0 * tt1@.len() == 0) by (nonlinear_arith);
    }
    Product { left: tt0, right: tt1, row, col: 0 }
}

/// The pairs of `items[row]` with every later element, in order.
pub open spec fn pair_row<T>(items: Seq<T>, row: int) -> Seq<(T, T)> {
    Seq::new((items.len() - 1 - row) as nat, |k: int| (items[row], items[row + 1 + k]))
}

/// The pairs whose first element is one of the first `rows` elements.
pub open spec fn pair_rows<T>(items: Seq<T>, rows: nat) -> Seq<(T, T)>
    decreases rows,
{
    if rows == 0 {
        Seq::empty()
    } else {
        pair_rows(items, (rows - 1) as nat) + pair_row(items, rows - 1)
    }
}

/// Every pair `(items[i], items[j])` with `i < j`, ordered by `i` and then
/// by `j`: the square of the collection without the diagonal and without the
/// mirror image of any pair.
pub open spec fn unique_pairs<T>(items: Seq<T>) -> Seq<(T, T)> {
    pair_rows(items, items.len())
}

/// How many pairs come before the row of element `row` among `n` elements.
pub open spec fn row_start(n: int, row: int) -> int
    decreases row,
{
    if row <= 0 {
        0
    } else {
        row_start(n, row - 1) + (n - row)
    }
}

/// Where the pair of elements `i < j` stands among the unique pairs of `n`
/// elements.
pub open spec fn pair_rank(n: int, i: int, j: int) -> int {
    row_start(n, i) + (j - i - 1)
}

/// The rows before `row` hold `row * (2n - row - 1) / 2` pairs.
pub proof fn lemma_row_start(n: int, row: int)
    requires
        0 <= row <= n,
    ensures
        0 <= row_start(n, row),
        2 * row_start(n, row) == row * (2 * n - row - 1),
        row < n ==> row_start(n, row) + (n - 1 - row) == row_start(n, row + 1),
    decreases row,
{
    if row > 0 {
        lemma_row_start(n, row - 1);
        assert((row - 1) * (2 * n - (row - 1) - 1) + 2 * (n - row) == row * (2 * n - row - 1))
            by (nonlinear_arith);
    } else {
        assert(0 * (2 * n - 0 - 1) == 0) by (nonlinear_arith);
    }
}

/// The starts of the rows do not decrease.
pub proof fn lemma_row_start_monotone(n: int, i: int, j: int)
    requires
        0 <= i <= j <= n,
    ensures
        row_start(n, i) <= row_start(n, j),
    decreases j - i,
{
    if i < j {
        lemma_row_start_monotone(n, i, j - 1);
    }
}

/// The first `rows` rows hold as many pairs as `row_start` counts, and the
/// pair of elements `i < j` stands at its rank.
pub proof fn lemma_pair_rows<T>(items: Seq<T>, rows: nat)
    requires
        rows <= items.len(),
    ensures
        pair_rows(items, rows).len() == row_start(items.len() as int, rows as int),
        forall|i: int, j: int|
            0 <= i < rows && i < j < items.len() ==> {
                &&& 0 <= #[trigger] pair_rank(items.len() as int, i, j) < pair_rows(
                    items,
                    rows,
                ).len()
                &&& pair_rows(items, rows)[pair_rank(items.len() as int, i, j)] == (
                    items[i],
                    items[j],
                )
            },
    decreases rows,
{
    let n = items.len() as int;
    if rows > 0 {
        let before = (rows - 1) as nat;
        lemma_pair_rows(items, before);
        lemma_row_start(n, before as int);
        assert forall|i: int, j: int| 0 <= i < rows && i < j < items.len() implies {
            &&& 0 <= #[trigger] pair_rank(n, i, j) < pair_rows(items, rows).len()
            &&& pair_rows(items, rows)[pair_rank(n, i, j)] == (items[i], items[j])
        } by {
            lemma_row_start(n, i);
            if i < before {
                let r = pair_rank(n, i, j);
                assert(0 <= r < pair_rows(items, before).len());
            } else {
                assert(pair_row(items, i)[j - i - 1] == (items[i], items[j]));
            }
        }
    }
}

/// The length of the unique pairs of `n` elements is `n * (n - 1) / 2`.
pub proof fn lemma_unique_pairs_len<T>(items: Seq<T>)
    ensures
        2 * unique_pairs(items).len() == items.len() * (items.len() - 1),
{
    lemma_pair_rows(items, items.len());
    lemma_row_start(items.len() as int, items.len() as int);
}

/// The pair of elements `i < j` stands at its rank.
pub proof fn lemma_unique_pairs_at<T>(items: Seq<T>, i: int, j: int)
    requires
        0 <= i < j < items.len(),
    ensures
        0 <= pair_rank(items.len() as int, i, j) < unique_pairs(items).len(),
        unique_pairs(items)[pair_rank(items.len() as int, i, j)] == (items[i], items[j]),
{
    lemma_pair_rows(items, items.len());
}

/// Two different pairs of indices never share a rank: no pair comes twice.
pub proof fn lemma_pair_rank_injective(n: int, i: int, j: int, k: int, l: int)
    requires
        0 <= i < j < n,
        0 <= k < l < n,
        pair_rank(n, i, j) == pair_rank(n, k, l),
    ensures
        i == k,
        j == l,
{
    if i < k {
        lemma_row_start(n, i);
        lemma_row_start_monotone(n, i + 1, k);
    } else if k < i {
        lemma_row_start(n, k);
        lemma_row_start_monotone(n, k + 1, i);
    }
}

/// Every position among the first `rows` rows is the rank of a pair of
/// indices `i < j`: nothing but such pairs is enumerated.
pub proof fn lemma_pair_rows_covered(n: int, rows: int, k: int) -> (pair: (int, int))
    requires
        0 <= rows <= n,
        0 <= k < row_start(n, rows),
    ensures
        0 <= pair.0 < rows,
        pair.0 < pair.1 < n,
        k == pair_rank(n, pair.0, pair.1),
    decreases rows,
{
    if k < row_start(n, rows - 1) {
        lemma_pair_rows_covered(n, rows - 1, k)
    } else {
        (rows - 1, k - row_start(n, rows - 1) + rows)
    }
}

/// A walk through the pairs of distinct positions of one slice.
pub struct UniqueSquare<'a, T> {
    items: &'a [T],
    first: usize,
    second: usize,
}

impl<'a, T> UniqueSquare<'a, T> {
    /// The walk stands on a pair or past the last one.
    pub closed spec fn wf(&self) -> bool {
        &&& self.second == self.first + 1
            || self.first + 1 < self.second < self.items@.len()
        &&& self.first < self.items@.len() || self.first == 0
    }

    /// All pairs of the walk, from its start.
    pub closed spec fn pairs(&self) -> Seq<(T, T)> {
        unique_pairs(self.items@)
    }

    /// How many pairs have been handed out.
    pub closed spec fn position(&self) -> int {
        if self.first < self.items@.len() {
            pair_rank(self.items@.len() as int, self.first as int, self.second as int)
        } else {
            0
        }
    }

    /// The position never passes the end.
    pub proof fn lemma_position_in_range(&self)
        requires
            self.wf(),
        ensures
            0 <= self.position() <= self.pairs().len(),
    {
        let n = self.items@.len() as int;
        lemma_pair_rows(self.items@, self.items@.len());
        if self.first < n {
            lemma_row_start(n, self.first as int);
            lemma_row_start_monotone(n, self.first as int + 1, n);
        }
    }

    /// Hands out the next pair, or `None` after the last.
    pub fn next(&mut self) -> (r: Option<(&'a T, &'a T)>)
        requires
            old(self).wf(),
        ensures
            final(self).wf(),
            final(self).pairs() == old(self).pairs(),
            match r {
                Some(pair) => {
                    &&& old(self).position() < old(self).pairs().len()
                    &&& (*pair.0, *pair.1) == old(self).pairs()[old(self).position()]
                    &&& final(self).position() == old(self).position() + 1
                },
                None => {
                    &&& old(self).position() == old(self).pairs().len()
                    &&& final(self).position() == old(self).position()
                },
            },
    {
        let n = self.items.len();
        proof {
            lemma_pair_rows(self.items@, self.items@.len());
            if self.first < n {
                lemma_row_start(n as int, self.first as int);
            }
        }
        if self.second >= n {
            proof {
                if self.first < n {
                    assert(self.first + 1 == n);
                    lemma_row_start(n as int, n as int);
                } else {
                    assert(n == 0);
                }
            }
            return None;
        }
        let a = &self.items[self.first];
        let b = &self.items[self.second];
        if self.second + 1 < n {
            self.second = self.second + 1;
        } else {
            self.first = self.first + 1;
            self.second = self.first + 1;
        }
        proof {
            if self.first < n {
                lemma_row_start(n as int, self.first as int);
            }
        }
        Some((a, b))
    }

    /// The pairs that the walk has not handed out yet, in order.
    pub fn into_vec(self) -> (v: Vec<(&'a T, &'a T)>)
        requires
            self.wf(),
        ensures
            v@.len() == self.pairs().len() - self.position(),
            forall|k: int|
                0 <= k < v@.len() ==> (*(#[trigger] v@[k]).0, *v@[k].1) == self.pairs()[
                    self.position() + k],
    {
        let mut walk = self;
        let mut v: Vec<(&'a T, &'a T)> = Vec::new();
        proof {
            walk.lemma_position_in_range();
        }
        loop
            invariant
                walk.wf(),
                walk.pairs() == self.pairs(),
                self.position() <= walk.position() <= self.pairs().len(),
                v@.len() == walk.position() - self.position(),
                forall|k: int|
                    0 <= k < v@.len() ==> (*(#[trigger] v@[k]).0, *v@[k].1) == self.pairs()[
                        self.position() + k],
            ensures
                walk.position() == self.pairs().len(),
                v@.len() == walk.position() - self.position(),
                forall|k: int|
                    0 <= k < v@.len() ==> (*(#[trigger] v@[k]).0, *v@[k].1) == self.pairs()[
                        self.position() + k],
            decreases self.pairs().len() - walk.position(),
        {
            match walk.next() {
                Some(pair) => {
                    v.push(pair);
                },
                None => {
                    break ;
                },
            }
        }
        v
    }
}

/// Starts a walk through every pair of two different positions of `tt`,
/// each pair once, the earlier position first.
pub fn unique_square<'a, T>(tt: &'a [T]) -> (walk: UniqueSquare<'a, T>)
    ensures
        walk.wf(),
        walk.pairs() == unique_pairs(tt@),
        walk.position() == 0,
{
    UniqueSquare { items: tt, first: 0, second: 1 }
}

} // verus!
