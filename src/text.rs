use vstd::prelude::*;

verus! {

/// The decimal digit for `d`, which is below ten.
pub open spec fn digit_char(d: nat) -> char {
    if d == 0 { '0' } else if d == 1 { '1' } else if d == 2 { '2' } else if d == 3 { '3' }
    else if d == 4 { '4' } else if d == 5 { '5' } else if d == 6 { '6' } else if d == 7 { '7' }
    else if d == 8 { '8' } else { '9' }
}

/// `n` written in decimal, without leading zeros.
pub open spec fn decimal(n: nat) -> Seq<char>
    decreases n,
{
    if n < 10 {
        seq![digit_char(n)]
    } else {
        decimal(n / 10).push(digit_char(n % 10))
    }
}

/// `fields` joined by tab characters.
pub open spec fn tab_joined(fields: Seq<Seq<char>>) -> Seq<char>
    decreases fields.len(),
{
    if fields.len() == 0 {
        Seq::empty()
    } else if fields.len() == 1 {
        fields[0]
    } else {
        tab_joined(fields.drop_last()) + seq!['\t'] + fields.last()
    }
}

/// The pieces of `s` between occurrences of `sep`; there is always at least one.
pub open spec fn split_at_char(s: Seq<char>, sep: char) -> Seq<Seq<char>>
    decreases s.len(),
{
    if s.len() == 0 {
        seq![Seq::empty()]
    } else {
        let init = split_at_char(s.drop_last(), sep);
        if s.last() == sep {
            init.push(Seq::empty())
        } else {
            init.update(init.len() - 1, init.last().push(s.last()))
        }
    }
}

/// The views of a list of strings.
pub open spec fn views(v: Seq<String>) -> Seq<Seq<char>> {
    v.map_values(|s: String| s@)
}

/// Splitting always gives at least one piece.
pub proof fn lemma_split_nonempty(s: Seq<char>, sep: char)
    ensures
        split_at_char(s, sep).len() >= 1,
    decreases s.len(),
{
    if s.len() > 0 {
        lemma_split_nonempty(s.drop_last(), sep);
    }
}

fn digit_text(d: usize) -> (r: &'static str)
    requires
        d < 10,
    ensures
        r@ == seq![digit_char(d as nat)],
{
    proof {
        reveal_strlit("0");
        reveal_strlit("1");
        reveal_strlit("2");
        reveal_strlit("3");
        reveal_strlit("4");
        reveal_strlit("5");
        reveal_strlit("6");
        reveal_strlit("7");
        reveal_strlit("8");
        reveal_strlit("9");
    }
    if d == 0 { "0" } else if d == 1 { "1" } else if d == 2 { "2" } else if d == 3 { "3" }
    else if d == 4 { "4" } else if d == 5 { "5" } else if d == 6 { "6" } else if d == 7 { "7" }
    else if d == 8 { "8" } else { "9" }
}

/// `n` written in decimal.
pub fn to_decimal(n: usize) -> (r: String)
    ensures
        r@ == decimal(n as nat),
    decreases n,
{
    if n < 10 {
        String::from_str(digit_text(n))
    } else {
        let mut r = to_decimal(n / 10);
        r.append(digit_text(n % 10));
        r
    }
}

/// The tab character as text.
pub fn tab() -> (r: &'static str)
    ensures
        r@ == seq!['\t'],
{
    proof {
        reveal_strlit("\t");
    }
    "\t"
}

/// `fields` joined by tab characters.
pub fn join_tabs(fields: &[String]) -> (r: String)
    ensures
        r@ == tab_joined(views(fields@)),
{
    let mut r = String::new();
    let mut i: usize = 0;
    while i < fields.len()
        invariant
            0 <= i <= fields.len(),
            r@ == tab_joined(views(fields@.take(i as int))),
        decreases fields.len() - i,
    {
        assert(views(fields@.take(i as int + 1)).drop_last() =~= views(fields@.take(i as int)));
        if i > 0 {
            r.append(tab());
        }
        r.append(fields[i].as_str());
        i = i + 1;
    }
    assert(fields@.take(fields.len() as int) =~= fields@);
    r
}

/// The pieces of `s` between commas, as `split_at_char` gives them.
pub fn split_commas(s: &str) -> (r: Vec<String>)
    ensures
        views(r@) == split_at_char(s@, ','),
{
    let n = s.unicode_len();
    let mut pieces: Vec<String> = Vec::new();
    let mut start: usize = 0;
    let mut i: usize = 0;
    assert(s@.take(0) =~= Seq::<char>::empty());
    assert(views(pieces@).push(s@.subrange(0, 0)) =~= seq![Seq::<char>::empty()]);
    while i < n
        invariant
            n == s@.len(),
            0 <= start <= i <= n,
            split_at_char(s@.take(i as int), ',') == views(pieces@).push(s@.subrange(start as int, i as int)),
        decreases n - i,
    {
        let c = s.get_char(i);
        let ghost pre = s@.take(i as int);
        assert(s@.take(i as int + 1).drop_last() =~= pre);
        if c == ',' {
            pieces.push(String::from_str(s.substring_char(start, i)));
            assert(views(pieces@) =~= views(pieces@.drop_last()).push(s@.subrange(start as int, i as int)));
            start = i + 1;
            assert(s@.take(i as int + 1).last() == ',');
            assert(split_at_char(pre, ',') =~= views(pieces@));
            assert(s@.subrange(start as int, i as int + 1) =~= Seq::<char>::empty());
            assert(split_at_char(s@.take(i as int + 1), ',') =~= views(pieces@).push(s@.subrange(start as int, i as int + 1)));
        } else {
            let ghost init = views(pieces@).push(s@.subrange(start as int, i as int));
            assert(s@.take(i as int + 1).last() == c);
            assert(s@.subrange(start as int, i as int + 1) =~= s@.subrange(start as int, i as int).push(c));
            assert(init.update(init.len() - 1, init.last().push(c)) =~= views(pieces@).push(s@.subrange(start as int, i as int + 1)));
            assert(split_at_char(s@.take(i as int + 1), ',') =~= views(pieces@).push(s@.subrange(start as int, i as int + 1)));
        }
        i = i + 1;
    }
    assert(s@.take(n as int) =~= s@);
    let ghost before = pieces@;
    pieces.push(String::from_str(s.substring_char(start, n)));
    assert(views(pieces@) =~= views(before).push(s@.subrange(start as int, n as int)));
    pieces
}

} // verus!
