use vstd::prelude::*;

use colored::Colorize;

use crate::layer::{same_text, Layer};
use crate::positions::{flag_set, lists_in_order, positions_where};
use crate::text::{decimal, join_tabs, tab, tab_joined, to_decimal, views};
use crate::token::{Token, TokenView};

verus! {

/// Two sentences that were to be compared hold different numbers of tokens.
#[derive(Clone, Copy, Debug, PartialEq, Eq, Structural)]
pub struct LengthMismatch {
    pub left: usize,
    pub right: usize,
}

/// Whether some layer of `layers` reads differently in `a` and `b`. An absent
/// value equals only an absent value.
pub open spec fn layers_differ(a: TokenView, b: TokenView, layers: Seq<Layer>) -> bool {
    exists|k: int| 0 <= k < layers.len() && #[trigger] layers[k].spec_value(a) != layers[k].spec_value(b)
}

/// The positions at which two aligned sentences differ in some layer of `layers`.
pub open spec fn diff_set(a: Seq<Token>, b: Seq<Token>, layers: Seq<Layer>) -> Set<int> {
    Set::new(|i: int| 0 <= i < a.len() && i < b.len() && layers_differ(a[i]@, b[i]@, layers))
}

/// Whether some layer of `layers` reads differently in `a` and `b`.
fn tokens_differ(a: &Token, b: &Token, layers: &[Layer]) -> (r: bool)
    ensures
        r == layers_differ(a@, b@, layers@),
{
    let mut k: usize = 0;
    while k < layers.len()
        invariant
            0 <= k <= layers.len(),
            forall|j: int| 0 <= j < k ==> #[trigger] layers@[j].spec_value(a@) == layers@[j].spec_value(b@),
        decreases layers.len() - k,
    {
        let va = layers[k].value(a);
        let vb = layers[k].value(b);
        let equal = match (va, vb) {
            (Some(x), Some(y)) => same_text(x, y),
            (None, None) => true,
            _ => false,
        };
        if !equal {
            assert(layers@[k as int].spec_value(a@) != layers@[k as int].spec_value(b@));
            return true;
        }
        k = k + 1;
    }
    false
}

/// The ascending positions at which `a` and `b` differ in some layer of
/// `layers`. Fails when the two sentences differ in length.
pub fn diff_positions(a: &[Token], b: &[Token], layers: &[Layer]) -> (r: Result<Vec<usize>, LengthMismatch>)
    ensures
        r is Err <==> a.len() != b.len(),
        match r {
            Ok(v) => lists_in_order(v@, diff_set(a@, b@, layers@)),
            Err(e) => e == (LengthMismatch { left: a.len(), right: b.len() }),
        },
{
    if a.len() != b.len() {
        return Err(LengthMismatch { left: a.len(), right: b.len() });
    }
    let mut flags: Vec<bool> = Vec::new();
    let mut i: usize = 0;
    while i < a.len()
        invariant
            0 <= i <= a.len(),
            a.len() == b.len(),
            flags.len() == i,
            forall|j: int| 0 <= j < i ==> flags@[j] == layers_differ(#[trigger] a@[j]@, b@[j]@, layers@),
        decreases a.len() - i,
    {
        flags.push(tokens_differ(&a[i], &b[i], layers));
        i = i + 1;
    }
    assert(flag_set(flags@) =~= diff_set(a@, b@, layers@));
    Ok(positions_where(flags.as_slice()))
}

/// The text shown for a layer value: the value itself, or `_` where absent.
pub open spec fn shown(v: Option<Seq<char>>) -> Seq<char> {
    match v {
        Some(s) => s,
        None => seq!['_'],
    }
}

/// A column of a diff report: its text, and whether it is to be emphasized.
#[derive(Clone, Debug)]
pub struct Cell {
    pub text: String,
    pub emphasized: bool,
}

impl View for Cell {
    type V = (Seq<char>, bool);

    open spec fn view(&self) -> (Seq<char>, bool) {
        (self.text@, self.emphasized)
    }
}

/// The cells of the layers in `show`, read from `t`, never emphasized.
pub open spec fn shown_cells(t: TokenView, show: Seq<Layer>) -> Seq<(Seq<char>, bool)> {
    Seq::new(show.len(), |k: int| (shown(show[k].spec_value(t)), false))
}

/// For each layer of `layers`, the cell of `a` and then the cell of `b`, both
/// emphasized exactly when the two shown texts differ.
pub open spec fn compared_cells(a: TokenView, b: TokenView, layers: Seq<Layer>) -> Seq<(Seq<char>, bool)>
    decreases layers.len(),
{
    if layers.len() == 0 {
        Seq::empty()
    } else {
        let l = layers.last();
        let ta = shown(l.spec_value(a));
        let tb = shown(l.spec_value(b));
        compared_cells(a, b, layers.drop_last()) + seq![(ta, ta != tb), (tb, ta != tb)]
    }
}

/// The cells of one report line: the shown layers of `a`, then the compared
/// layers of `a` and `b` side by side.
pub open spec fn row_cells(a: TokenView, b: TokenView, diff: Seq<Layer>, show: Seq<Layer>) -> Seq<(Seq<char>, bool)> {
    shown_cells(a, show) + compared_cells(a, b, diff)
}

/// Whether `s` holds no escape character.
pub open spec fn escape_free(s: Seq<char>) -> bool {
    forall|i: int| 0 <= i < s.len() ==> s[i] != '\x1b'
}

/// `s` between the terminal escape sequences for red and for reset.
pub open spec fn ansi_red(s: Seq<char>) -> Seq<char> {
    seq!['\x1b', '[', '3', '1', 'm'] + s + seq!['\x1b', '[', '0', 'm']
}

/// Whether `out` is a rendering of `cell`: its text, or, for an emphasized cell,
/// possibly its text in red.
pub open spec fn renders_cell(cell: (Seq<char>, bool), out: Seq<char>) -> bool {
    if cell.1 {
        escape_free(cell.0) ==> (out == cell.0 || out == ansi_red(cell.0))
    } else {
        out == cell.0
    }
}

/// A report line: the 1-based position `n`, a tab, and the rendered cells
/// joined by tabs.
pub open spec fn line_of(n: nat, columns: Seq<Seq<char>>) -> Seq<char> {
    decimal(n) + seq!['\t'] + tab_joined(columns)
}

/// Whether `line` is the report line at 1-based position `n` for `cells`.
pub open spec fn renders_row(line: Seq<char>, n: nat, cells: Seq<(Seq<char>, bool)>) -> bool {
    exists|columns: Seq<Seq<char>>|
        columns.len() == cells.len() && line == line_of(n, columns) && forall|k: int|
            0 <= k < cells.len() ==> renders_cell(#[trigger] cells[k], columns[k])
}

/// Relies on colored's `Colorize::red` and on the `Display` of the resulting
/// `ColoredString`: with colouring switched off it writes the text alone, else
/// the text between the escape sequences for red and for reset.
#[verifier::external_body]
fn red(text: &str) -> (r: String)
    ensures
        escape_free(text@) ==> (r@ == text@ || r@ == ansi_red(text@)),
{
    format!("{}", text.red())
}

/// The text shown for a layer value.
pub fn show_value(v: Option<&str>) -> (r: String)
    ensures
        r@ == shown(v.deep_view()),
{
    match v {
        Some(s) => String::from_str(s),
        None => {
            proof {
                reveal_strlit("_");
            }
            String::from_str("_")
        },
    }
}

/// The cells of the report line for the aligned tokens `a` and `b`.
pub fn diff_row(a: &Token, b: &Token, diff: &[Layer], show: &[Layer]) -> (r: Vec<Cell>)
    ensures
        r@.map_values(|c: Cell| c@) == row_cells(a@, b@, diff@, show@),
{
    let mut cells: Vec<Cell> = Vec::new();
    let mut k: usize = 0;
    while k < show.len()
        invariant
            0 <= k <= show.len(),
            cells@.map_values(|c: Cell| c@) == shown_cells(a@, show@.take(k as int)),
        decreases show.len() - k,
    {
        let text = show_value(show[k].value(a));
        let ghost before = cells@;
        let cell = Cell { text, emphasized: false };
        cells.push(cell);
        assert(cells@.map_values(|c: Cell| c@) =~= before.map_values(|c: Cell| c@).push(cell@));
        assert(cells@.map_values(|c: Cell| c@) =~= shown_cells(a@, show@.take(k as int + 1)));
        k = k + 1;
    }
    assert(show@.take(show.len() as int) =~= show@);
    let ghost front = cells@.map_values(|c: Cell| c@);
    let mut j: usize = 0;
    while j < diff.len()
        invariant
            0 <= j <= diff.len(),
            front == shown_cells(a@, show@),
            cells@.map_values(|c: Cell| c@) == front + compared_cells(a@, b@, diff@.take(j as int)),
        decreases diff.len() - j,
    {
        let ta = show_value(diff[j].value(a));
        let tb = show_value(diff[j].value(b));
        let differ = !(ta == tb);
        let ghost before = cells@;
        let ca = Cell { text: ta, emphasized: differ };
        let cb = Cell { text: tb, emphasized: differ };
        let ghost pair = seq![ca@, cb@];
        cells.push(ca);
        cells.push(cb);
        assert(cells@.map_values(|c: Cell| c@) =~= before.map_values(|c: Cell| c@) + pair);
        assert(diff@.take(j as int + 1).drop_last() =~= diff@.take(j as int));
        assert(cells@.map_values(|c: Cell| c@) =~= front + compared_cells(a@, b@, diff@.take(j as int + 1)));
        j = j + 1;
    }
    assert(diff@.take(diff.len() as int) =~= diff@);
    cells
}

/// A cell as it appears in a report: emphasized cells in red.
pub fn render_cell(cell: &Cell) -> (r: String)
    ensures
        renders_cell(cell@, r@),
{
    if cell.emphasized {
        red(cell.text.as_str())
    } else {
        cell.text.clone()
    }
}

/// The report line at 1-based position `n` for the given columns.
pub fn format_line(n: usize, columns: &[String]) -> (r: String)
    ensures
        r@ == line_of(n as nat, views(columns@)),
{
    let mut r = to_decimal(n);
    r.append(tab());
    let rest = join_tabs(columns);
    r.append(rest.as_str());
    r
}

/// One report line for every position of the aligned sentences `a` and `b`:
/// its 1-based position, the layers of `show` read from `a`, and each layer of
/// `diff` read from `a` and from `b`, emphasized where the two differ.
pub fn render_diff(a: &[Token], b: &[Token], diff: &[Layer], show: &[Layer]) -> (r: Vec<String>)
    requires
        a.len() == b.len(),
    ensures
        r.len() == a.len(),
        forall|i: int| 0 <= i < a.len() ==> renders_row(#[trigger] r@[i]@, (i + 1) as nat, row_cells(a@[i]@, b@[i]@, diff@, show@)),
{
    let mut lines: Vec<String> = Vec::new();
    let mut i: usize = 0;
    while i < a.len()
        invariant
            0 <= i <= a.len(),
            a.len() == b.len(),
            lines.len() == i,
            forall|p: int| 0 <= p < i ==> renders_row(#[trigger] lines@[p]@, (p + 1) as nat, row_cells(a@[p]@, b@[p]@, diff@, show@)),
        decreases a.len() - i,
    {
        let cells = diff_row(&a[i], &b[i], diff, show);
        let ghost wanted = row_cells(a@[i as int]@, b@[i as int]@, diff@, show@);
        let mut columns: Vec<String> = Vec::new();
        let mut k: usize = 0;
        while k < cells.len()
            invariant
                0 <= k <= cells.len(),
                cells@.map_values(|c: Cell| c@) == wanted,
                columns.len() == k,
                forall|q: int| 0 <= q < k ==> renders_cell(#[trigger] wanted[q], columns@[q]@),
            decreases cells.len() - k,
        {
            let column = render_cell(&cells[k]);
            columns.push(column);
            k = k + 1;
        }
        let line = format_line(i + 1, columns.as_slice());
        assert(forall|q: int| 0 <= q < wanted.len() ==> renders_cell(#[trigger] wanted[q], views(columns@)[q]));
        assert(renders_row(line@, (i + 1) as nat, wanted));
        lines.push(line);
        i = i + 1;
    }
    lines
}

/// The report for one pair of aligned sentences: nothing where they agree on
/// every layer of `diff`, else the lines of `render_diff` followed by an empty
/// line. Fails where the sentences differ in length.
pub fn compare_pair(a: &[Token], b: &[Token], diff: &[Layer], show: &[Layer]) -> (r: Result<Vec<String>, LengthMismatch>)
    ensures
        r is Err <==> a.len() != b.len(),
        match r {
            Ok(lines) => if diff_set(a@, b@, diff@).is_empty() {
                lines.len() == 0
            } else {
                &&& lines.len() == a.len() + 1
                &&& forall|i: int| 0 <= i < a.len() ==> renders_row(#[trigger] lines@[i]@, (i + 1) as nat, row_cells(a@[i]@, b@[i]@, diff@, show@))
                &&& lines@[a.len() as int]@.len() == 0
            },
            Err(e) => e == (LengthMismatch { left: a.len(), right: b.len() }),
        },
{
    let positions = match diff_positions(a, b, diff) {
        Ok(p) => p,
        Err(e) => {
            return Err(e);
        },
    };
    if positions.len() == 0 {
        assert(diff_set(a@, b@, diff@) =~= Set::<int>::empty());
        return Ok(Vec::new());
    }
    assert(diff_set(a@, b@, diff@).contains(positions@[0] as int));
    let mut lines = render_diff(a, b, diff, show);
    lines.push(String::new());
    Ok(lines)
}

/// A difference lies within the sentences, and a sentence never differs from
/// itself.
pub proof fn lemma_diff_within_and_reflexive(a: Seq<Token>, b: Seq<Token>, layers: Seq<Layer>)
    requires
        a.len() == b.len(),
        layers.len() > 0,
    ensures
        forall|p: int| #[trigger] diff_set(a, b, layers).contains(p) ==> 0 <= p < a.len(),
        diff_set(a, a, layers) == Set::<int>::empty(),
{
    assert(diff_set(a, a, layers) =~= Set::<int>::empty());
}

/// The differences depend only on which layers are compared, not on their
/// order or repetition: any reordering of the layer list gives the same set.
pub proof fn lemma_diff_ignores_layer_order(a: Seq<Token>, b: Seq<Token>, l1: Seq<Layer>, l2: Seq<Layer>)
    requires
        forall|l: Layer| l1.contains(l) <==> l2.contains(l),
    ensures
        diff_set(a, b, l1) == diff_set(a, b, l2),
{
    assert forall|p: int| diff_set(a, b, l1).contains(p) implies diff_set(a, b, l2).contains(p) by {
        let k = choose|k: int| 0 <= k < l1.len() && #[trigger] l1[k].spec_value(a[p]@) != l1[k].spec_value(b[p]@);
        assert(l1.contains(l1[k]));
        let k2 = choose|k2: int| 0 <= k2 < l2.len() && l2[k2] == l1[k];
        assert(l2[k2].spec_value(a[p]@) != l2[k2].spec_value(b[p]@));
    }
    assert forall|p: int| diff_set(a, b, l2).contains(p) implies diff_set(a, b, l1).contains(p) by {
        let k = choose|k: int| 0 <= k < l2.len() && #[trigger] l2[k].spec_value(a[p]@) != l2[k].spec_value(b[p]@);
        assert(l2.contains(l2[k]));
        let k1 = choose|k1: int| 0 <= k1 < l1.len() && l1[k1] == l2[k];
        assert(l1[k1].spec_value(a[p]@) != l1[k1].spec_value(b[p]@));
    }
    assert(diff_set(a, b, l1) =~= diff_set(a, b, l2));
}

} // verus!
