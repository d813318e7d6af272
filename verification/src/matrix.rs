//! The discrete side of matrix and equation animations: which matrix cells
//! a step selects, the grid a ragged matrix spans, and which source part
//! each target part of an equation morphs from.
use vstd::prelude::*;

verus! {

/// The cells that a matrix step highlights.
#[derive(Clone, Debug)]
pub enum MatrixSelection {
    /// The listed (row, column) cells.
    Cells(Vec<(usize, usize)>),
    /// Every cell of one row.
    Row(usize),
    /// Every cell of one column.
    Column(usize),
}

/// Whether the cell at (`row`, `col`) belongs to the selection.
pub open spec fn selects(selection: MatrixSelection, row: usize, col: usize) -> bool {
    match selection {
        MatrixSelection::Cells(cells) => cells@.contains((row, col)),
        MatrixSelection::Row(r) => row == r,
        MatrixSelection::Column(c) => col == c,
    }
}

impl MatrixSelection {
    /// Whether the cell at (`row`, `col`) is highlighted by this step.
    pub fn is_selected(&self, row: usize, col: usize) -> (r: bool)
        ensures
            r == selects(*self, row, col),
    {
        match self {
            MatrixSelection::Cells(cells) => {
                let mut i: usize = 0;
                while i < cells.len()
                    invariant
                        *self == MatrixSelection::Cells(*cells),
                        i <= cells@.len(),
                        forall|k: int| 0 <= k < i ==> cells@[k] != (row, col),
                    decreases cells@.len() - i,
                {
                    let (r, c) = cells[i];
                    if r == row && c == col {
                        proof {
                            assert(cells@[i as int] == (row, col));
                            assert(cells@.contains((row, col)));
                        }
                        return true;
                    }
                    i += 1;
                }
                false
            },
            MatrixSelection::Row(r) => row == *r,
            MatrixSelection::Column(c) => col == *c,
        }
    }
}

/// The largest of the first `n` row lengths, or 0.
pub open spec fn max_prefix(lens: Seq<usize>, n: nat) -> nat
    decreases n,
{
    if n == 0 || n > lens.len() {
        0
    } else {
        let rest = max_prefix(lens, (n - 1) as nat);
        if lens[n - 1] > rest {
            lens[n - 1] as nat
        } else {
            rest
        }
    }
}

/// The rows and columns a matrix spans: its row count and its longest row.
pub fn matrix_dims(row_lengths: &Vec<usize>) -> (r: (usize, usize))
    ensures
        r.0 == row_lengths@.len(),
        r.1 == max_prefix(row_lengths@, row_lengths@.len()),
{
    let mut cols: usize = 0;
    let mut i: usize = 0;
    while i < row_lengths.len()
        invariant
            i <= row_lengths@.len(),
            cols == max_prefix(row_lengths@, i as nat),
        decreases row_lengths@.len() - i,
    {
        if row_lengths[i] > cols {
            cols = row_lengths[i];
        }
        i += 1;
    }
    (row_lengths.len(), cols)
}

/// Law: the column count of a matrix is the length of one of its rows (or
/// 0 when it has none) and no row is longer.
pub proof fn lemma_dims_cover_rows(lens: Seq<usize>, n: nat)
    requires
        n <= lens.len(),
    ensures
        forall|i: int| 0 <= i < n ==> lens[i] <= max_prefix(lens, n),
        n == 0 || exists|i: int| 0 <= i < n && lens[i] == max_prefix(lens, n),
    decreases n,
{
    if n > 0 {
        lemma_dims_cover_rows(lens, (n - 1) as nat);
        if max_prefix(lens, n) == lens[n - 1] {
            assert(lens[n - 1] == max_prefix(lens, n));
        } else {
            if n > 1 {
                let i = choose|i: int| 0 <= i < n - 1 && lens[i] == max_prefix(lens, (n - 1) as nat);
                assert(lens[i] == max_prefix(lens, n));
            }
        }
    }
}

/// The character of a decimal digit `d` (0 to 9).
pub open spec fn digit_char(d: nat) -> char {
    (48 + d) as char
}

/// The decimal numeral of `n`, without leading zeros.
pub open spec fn decimal(n: nat) -> Seq<char>
    decreases n,
{
    if n < 10 {
        seq![digit_char(n)]
    } else {
        decimal(n / 10).push(digit_char(n % 10))
    }
}

/// The one-character string of digit `d`.
fn digit_str(d: usize) -> (r: &'static str)
    requires
        d < 10,
    ensures
        r@ == seq![digit_char(d as nat)],
{
    match d {
        0 => {
            proof {
                reveal_strlit("0");
            }
            "0"
        },
        1 => {
            proof {
                reveal_strlit("1");
            }
            "1"
        },
        2 => {
            proof {
                reveal_strlit("2");
            }
            "2"
        },
        3 => {
            proof {
                reveal_strlit("3");
            }
            "3"
        },
        4 => {
            proof {
                reveal_strlit("4");
            }
            "4"
        },
        5 => {
            proof {
                reveal_strlit("5");
            }
            "5"
        },
        6 => {
            proof {
                reveal_strlit("6");
            }
            "6"
        },
        7 => {
            proof {
                reveal_strlit("7");
            }
            "7"
        },
        8 => {
            proof {
                reveal_strlit("8");
            }
            "8"
        },
        _ => {
            proof {
                reveal_strlit("9");
            }
            "9"
        },
    }
}

/// Appends the decimal numeral of `n` to `s`.
fn push_decimal(s: &mut String, n: usize)
    ensures
        final(s)@ == old(s)@ + decimal(n as nat),
    decreases n,
{
    if n >= 10 {
        push_decimal(s, n / 10);
    }
    s.append(digit_str(n % 10));
    proof {
        if n >= 10 {
            assert(decimal(n as nat) == decimal((n / 10) as nat).push(digit_char((n % 10) as nat)));
        }
    }
}

/// The key by which an equation part is matched across a morph: its own
/// key when it has one, else its text and position, `text#index`.
pub fn part_continuity_key(key: &Option<String>, text: &String, index: usize) -> (r: String)
    ensures
        match key {
            Some(k) => r@ == k@,
            None => r@ == text@ + seq!['#'] + decimal(index as nat),
        },
{
    match key {
        Some(k) => k.clone(),
        None => {
            let mut r = text.clone();
            proof {
                reveal_strlit("#");
            }
            r.append("#");
            push_decimal(&mut r, index);
            r
        },
    }
}

/// The key by which a matrix cell is matched across a morph: its own key
/// when it has one, else its text and position, `text@row:col`.
pub fn cell_continuity_key(key: &Option<String>, text: &String, row: usize, col: usize) -> (r: String)
    ensures
        match key {
            Some(k) => r@ == k@,
            None => r@ == text@ + seq!['@'] + decimal(row as nat) + seq![':'] + decimal(col as nat),
        },
{
    match key {
        Some(k) => k.clone(),
        None => {
            let mut r = text.clone();
            proof {
                reveal_strlit("@");
                reveal_strlit(":");
            }
            r.append("@");
            push_decimal(&mut r, row);
            r.append(":");
            push_decimal(&mut r, col);
            r
        },
    }
}

/// A decimal numeral is made of digits only, and has one digit exactly
/// when the number is below 10.
proof fn lemma_decimal_digits(n: nat)
    ensures
        forall|k: int| 0 <= k < decimal(n).len() ==> 48 <= (#[trigger] decimal(n)[k]) as int <= 57,
        decimal(n).len() >= 1,
        (decimal(n).len() == 1) == (n < 10),
    decreases n,
{
    if n >= 10 {
        lemma_decimal_digits(n / 10);
        let d = decimal(n);
        let p = decimal(n / 10);
        assert forall|k: int| 0 <= k < d.len() implies 48 <= (#[trigger] d[k]) as int <= 57 by {
            if k < p.len() {
                assert(d[k] == p[k]);
            }
        }
    }
}

/// Different numbers have different decimal numerals.
proof fn lemma_decimal_injective(a: nat, b: nat)
    requires
        decimal(a) == decimal(b),
    ensures
        a == b,
    decreases a,
{
    lemma_decimal_digits(a);
    lemma_decimal_digits(b);
    if a < 10 {
        assert(decimal(a)[0] == decimal(b)[0]);
        assert(digit_char(a) as int == 48 + a);
        assert(digit_char(b) as int == 48 + b);
        assert(b < 10);
        assert(decimal(a)[0] == digit_char(a));
        assert(decimal(b)[0] == digit_char(b));
        assert(a == b);
    } else {
        let da = decimal(a);
        let db = decimal(b);
        assert(da.last() == db.last());
        assert(digit_char(a % 10) == digit_char(b % 10));
        assert(digit_char(a % 10) as int == 48 + a % 10);
        assert(digit_char(b % 10) as int == 48 + b % 10);
        assert(da.drop_last() =~= decimal(a / 10));
        assert(db.drop_last() =~= decimal(b / 10));
        lemma_decimal_injective(a / 10, b / 10);
        vstd::arithmetic::div_mod::lemma_fundamental_div_mod(a as int, 10);
        vstd::arithmetic::div_mod::lemma_fundamental_div_mod(b as int, 10);
        assert(a / 10 == b / 10);
        assert(a % 10 == b % 10);
        assert(a == b);
    }
}

/// Law: parts without an explicit key, at different positions, get
/// different continuity keys, whatever their text.
pub proof fn lemma_part_keys_distinct(text: Seq<char>, i: nat, j: nat)
    requires
        i != j,
    ensures
        text + seq!['#'] + decimal(i) != text + seq!['#'] + decimal(j),
{
    let ki = text + seq!['#'] + decimal(i);
    let kj = text + seq!['#'] + decimal(j);
    if ki == kj {
        let off = text.len() + 1;
        assert(ki.skip(off as int) =~= decimal(i));
        assert(kj.skip(off as int) =~= decimal(j));
        lemma_decimal_injective(i, j);
    }
}

/// Law: cells without an explicit key, at different positions, get
/// different continuity keys, whatever their text.
pub proof fn lemma_cell_keys_distinct(text: Seq<char>, r1: nat, c1: nat, r2: nat, c2: nat)
    requires
        (r1, c1) != (r2, c2),
    ensures
        text + seq!['@'] + decimal(r1) + seq![':'] + decimal(c1) != text + seq!['@'] + decimal(r2)
            + seq![':'] + decimal(c2),
{
    let k1 = text + seq!['@'] + decimal(r1) + seq![':'] + decimal(c1);
    let k2 = text + seq!['@'] + decimal(r2) + seq![':'] + decimal(c2);
    if k1 == k2 {
        lemma_decimal_digits(r1);
        lemma_decimal_digits(r2);
        let off = (text.len() + 1) as int;
        let t1 = k1.skip(off);
        let t2 = k2.skip(off);
        assert(t1 =~= decimal(r1) + seq![':'] + decimal(c1));
        assert(t2 =~= decimal(r2) + seq![':'] + decimal(c2));
        let l1 = decimal(r1).len() as int;
        let l2 = decimal(r2).len() as int;
        if l1 < l2 {
            assert(t1[l1] == ':');
            assert(t2[l1] == decimal(r2)[l1]);
        } else if l2 < l1 {
            assert(t2[l2] == ':');
            assert(t1[l2] == decimal(r1)[l2]);
        } else {
            assert(t1.subrange(0, l1) =~= decimal(r1));
            assert(t2.subrange(0, l1) =~= decimal(r2));
            assert(t1.skip(l1 + 1) =~= decimal(c1));
            assert(t2.skip(l1 + 1) =~= decimal(c2));
            lemma_decimal_injective(r1, r2);
            lemma_decimal_injective(c1, c2);
        }
    }
}

/// The index of the last key in `keys` equal to `key`, if any.
pub open spec fn last_with_key(keys: Seq<Seq<char>>, key: Seq<char>) -> Option<nat>
    decreases keys.len(),
{
    if keys.len() == 0 {
        None
    } else if keys.last() == key {
        Some((keys.len() - 1) as nat)
    } else {
        last_with_key(keys.drop_last(), key)
    }
}

/// The views of a list of strings.
pub open spec fn key_views(s: Seq<String>) -> Seq<Seq<char>> {
    s.map_values(|t: String| t@)
}

/// The last source key equal to `key`, searching the first `n` keys.
fn find_last(source_keys: &Vec<String>, key: &String) -> (r: Option<usize>)
    ensures
        match last_with_key(key_views(source_keys@), key@) {
            Some(i) => r == Some(i as usize),
            None => r is None,
        },
{
    let mut i: usize = source_keys.len();
    proof {
        assert(key_views(source_keys@).subrange(0, i as int) =~= key_views(source_keys@));
    }
    while i > 0
        invariant
            i <= source_keys@.len(),
            last_with_key(key_views(source_keys@), key@) == last_with_key(
                key_views(source_keys@).subrange(0, i as int),
                key@,
            ),
        decreases i,
    {
        let ghost prefix = key_views(source_keys@).subrange(0, i as int);
        if source_keys[i - 1] == *key {
            proof {
                assert(prefix.last() == key@);
            }
            return Some(i - 1);
        }
        proof {
            assert(prefix.drop_last() =~= key_views(source_keys@).subrange(0, (i - 1) as int));
        }
        i -= 1;
    }
    proof {
        assert(key_views(source_keys@).subrange(0, 0).len() == 0);
    }
    None
}

/// For each target part of an equation morph, the source part it moves
/// from: the last source part with the same continuity key. Parts with no
/// match fade in instead.
pub fn continuity_sources(source_keys: &Vec<String>, target_keys: &Vec<String>) -> (r: Vec<Option<usize>>)
    ensures
        r@.len() == target_keys@.len(),
        forall|t: int|
            0 <= t < target_keys@.len() ==> match last_with_key(key_views(source_keys@), target_keys@[t]@) {
                Some(i) => #[trigger] r@[t] == Some(i as usize),
                None => r@[t] is None,
            },
{
    let mut out: Vec<Option<usize>> = Vec::new();
    let mut t: usize = 0;
    while t < target_keys.len()
        invariant
            t <= target_keys@.len(),
            out@.len() == t,
            forall|k: int|
                0 <= k < t ==> match last_with_key(key_views(source_keys@), target_keys@[k]@) {
                    Some(i) => #[trigger] out@[k] == Some(i as usize),
                    None => out@[k] is None,
                },
        decreases target_keys@.len() - t,
    {
        let found = find_last(source_keys, &target_keys[t]);
        out.push(found);
        t += 1;
    }
    out
}

/// Law: a step highlights exactly the cells it names. A cell list selects
/// every listed cell and no other (a cell is selected only if that very
/// row-and-column pair is listed); a row selects exactly the cells of that
/// row, whatever their column; a column exactly the cells of that column,
/// whatever their row.
pub proof fn lemma_selection_is_exact(cells: Vec<(usize, usize)>, r: usize, c: usize, row: usize, col: usize)
    ensures
        forall|i: int|
            0 <= i < cells@.len() ==> selects(
                MatrixSelection::Cells(cells),
                (#[trigger] cells@[i]).0,
                cells@[i].1,
            ),
        selects(MatrixSelection::Cells(cells), row, col) ==> exists|i: int|
            0 <= i < cells@.len() && cells@[i].0 == row && cells@[i].1 == col,
        selects(MatrixSelection::Row(r), row, col) <==> row == r,
        selects(MatrixSelection::Column(c), row, col) <==> col == c,
{
    assert forall|i: int| 0 <= i < cells@.len() implies selects(
        MatrixSelection::Cells(cells),
        (#[trigger] cells@[i]).0,
        cells@[i].1,
    ) by {
        assert(cells@[i] == (cells@[i].0, cells@[i].1));
    }
    if selects(MatrixSelection::Cells(cells), row, col) {
        let i = choose|i: int| 0 <= i < cells@.len() && cells@[i] == (row, col);
        assert(cells@[i].0 == row && cells@[i].1 == col);
    }
}

} // verus!
