use vstd::prelude::*;

verus! {

/// The names of a list of strings, as character sequences.
pub open spec fn str_seq(v: Seq<String>) -> Seq<Seq<char>> {
    v.map_values(|s: String| s@)
}

/// The id of the first entry of `names` equal to `name`, or -1 when none is.
pub open spec fn index_of(names: Seq<Seq<char>>, name: Seq<char>) -> int
    decreases names.len(),
{
    if names.len() == 0 {
        -1
    } else if names[0] == name {
        0
    } else {
        let r = index_of(names.drop_first(), name);
        if r < 0 {
            -1
        } else {
            r + 1
        }
    }
}

proof fn lemma_index_of(names: Seq<Seq<char>>, name: Seq<char>, k: int)
    requires
        0 <= k <= names.len(),
        forall|j: int| 0 <= j < k ==> names[j] != name,
    ensures
        k < names.len() && names[k] == name ==> index_of(names, name) == k,
        k == names.len() ==> index_of(names, name) == -1,
    decreases k,
{
    if k > 0 {
        lemma_index_of(names.drop_first(), name, k - 1);
    }
}

/// Where a name stands once another is appended.
pub proof fn lemma_index_of_push(names: Seq<Seq<char>>, n: Seq<char>, x: Seq<char>)
    ensures
        -1 <= index_of(names, x) < names.len(),
        index_of(names, x) >= 0 ==> names[index_of(names, x)] == x,
        index_of(names.push(n), x) == if index_of(names, x) >= 0 {
            index_of(names, x)
        } else if n == x {
            names.len() as int
        } else {
            -1
        },
    decreases names.len(),
{
    if names.len() > 0 {
        lemma_index_of_push(names.drop_first(), n, x);
        let t = names.drop_first();
        assert(names.push(n).drop_first() =~= t.push(n));
        assert(names.push(n)[0] == names[0]);
        let r = index_of(t.push(n), x);
        assert(index_of(names.push(n), x) == if names[0] == x {
            0
        } else if r < 0 {
            -1
        } else {
            r + 1
        });
        let ti = index_of(t, x);
        assert(index_of(names, x) == if names[0] == x {
            0
        } else if ti < 0 {
            -1
        } else {
            ti + 1
        });
    } else {
        assert(names.push(n).drop_first() =~= Seq::<Seq<char>>::empty());
        assert(names.push(n)[0] == n);
        assert(index_of(names, x) == -1);
        assert(index_of(Seq::<Seq<char>>::empty(), x) == -1);
    }
}

/// The id of the entry of `names` equal to `name`, by the rule of `index_of`.
pub(crate) fn find_name(names: &Vec<String>, name: &String) -> (r: Option<usize>)
    ensures
        match r {
            Some(i) => i == index_of(str_seq(names@), name@) && i < names@.len(),
            None => index_of(str_seq(names@), name@) == -1,
        },
{
    let mut k: usize = 0;
    while k < names.len()
        invariant
            k <= names@.len(),
            forall|j: int| 0 <= j < k ==> #[trigger] str_seq(names@)[j] != name@,
        decreases names@.len() - k,
    {
        if names[k] == *name {
            proof {
                lemma_index_of(str_seq(names@), name@, k as int);
            }
            return Some(k);
        }
        k = k + 1;
    }
    proof {
        lemma_index_of(str_seq(names@), name@, k as int);
    }
    None
}

/// `order` with `x` placed before the first entry whose key is smaller than
/// the key of `x`.
pub open spec fn insert_by_key(order: Seq<int>, keys: Seq<int>, x: int) -> Seq<int>
    decreases order.len(),
{
    if order.len() == 0 {
        seq![x]
    } else if keys[order[0]] < keys[x] {
        seq![x] + order
    } else {
        seq![order[0]] + insert_by_key(order.drop_first(), keys, x)
    }
}

/// The ids `0..n` ordered by descending key; ids of equal keys keep their
/// relative order.
pub open spec fn order_by_key(keys: Seq<int>, n: nat) -> Seq<int>
    decreases n,
{
    if n == 0 {
        Seq::empty()
    } else {
        insert_by_key(order_by_key(keys, (n - 1) as nat), keys, n - 1)
    }
}

proof fn lemma_insert_at(order: Seq<int>, keys: Seq<int>, x: int, p: int)
    requires
        0 <= p <= order.len(),
        forall|q: int| 0 <= q < p ==> !(keys[#[trigger] order[q]] < keys[x]),
        p < order.len() ==> keys[order[p]] < keys[x],
    ensures
        insert_by_key(order, keys, x) == order.insert(p, x),
    decreases p,
{
    if p == 0 {
        assert(seq![x] + order =~= order.insert(0, x));
    } else {
        let rest = order.drop_first();
        assert forall|q: int| 0 <= q < p - 1 implies !(keys[#[trigger] rest[q]] < keys[x]) by {
            assert(rest[q] == order[q + 1]);
        }
        lemma_insert_at(rest, keys, x, p - 1);
        assert(seq![order[0]] + rest.insert(p - 1, x) =~= order.insert(p, x));
    }
}

/// The ids `0..keys.len()` ordered by descending key, stable.
pub(crate) fn order_by_key_desc(keys: &Vec<i128>) -> (r: Vec<usize>)
    ensures
        r@.map_values(|i: usize| i as int) == order_by_key(
            keys@.map_values(|k: i128| k as int),
            keys@.len(),
        ),
        forall|k: int| 0 <= k < r@.len() ==> #[trigger] r@[k] < keys@.len(),
{
    let ghost ks = keys@.map_values(|k: i128| k as int);
    let mut order: Vec<usize> = Vec::new();
    let mut i: usize = 0;
    while i < keys.len()
        invariant
            i <= keys@.len(),
            ks == keys@.map_values(|k: i128| k as int),
            order@.map_values(|i: usize| i as int) == order_by_key(ks, i as nat),
            forall|k: int| 0 <= k < order@.len() ==> #[trigger] order@[k] < i,
        decreases keys@.len() - i,
    {
        let x = keys[i];
        let mut p: usize = 0;
        while p < order.len() && !(keys[order[p]] < x)
            invariant
                p <= order@.len(),
                i < keys@.len(),
                x == keys@[i as int],
                forall|k: int| 0 <= k < order@.len() ==> #[trigger] order@[k] < i,
                forall|q: int| 0 <= q < p ==> !(keys@[#[trigger] order@[q] as int] < x),
            decreases order@.len() - p,
        {
            p = p + 1;
        }
        let ghost ov = order@.map_values(|i: usize| i as int);
        proof {
            assert forall|q: int| 0 <= q < p implies !(ks[#[trigger] ov[q]] < ks[i as int]) by {
                assert(!(keys@[order@[q] as int] < x));
            }
            lemma_insert_at(ov, ks, i as int, p as int);
        }
        order.insert(p, i);
        assert(order@.map_values(|i: usize| i as int) =~= ov.insert(p as int, i as int));
        i = i + 1;
    }
    order
}

/// Whether a name holds no escape character (`'\u{1b}'`). Only such names
/// can be laid out in a table.
pub open spec fn printable(s: Seq<char>) -> bool {
    !s.contains('\u{1b}')
}

/// Whether every name of the list is printable.
pub open spec fn all_printable(names: Seq<Seq<char>>) -> bool {
    forall|i: int| 0 <= i < names.len() ==> printable(#[trigger] names[i])
}

/// Whether `name` holds no escape character.
pub fn is_printable(name: &String) -> (r: bool)
    ensures
        r == printable(name@),
{
    let s = name.as_str();
    let n = s.unicode_len();
    let mut i: usize = 0;
    while i < n
        invariant
            n == s@.len(),
            s@ == name@,
            i <= n,
            forall|j: int| 0 <= j < i ==> s@[j] != '\u{1b}',
        decreases n - i,
    {
        if s.get_char(i) == '\u{1b}' {
            assert(name@[i as int] == '\u{1b}');
            return false;
        }
        i = i + 1;
    }
    true
}

/// The text of a table whose first row is `header` and whose other rows each
/// hold a name and numbers, each number written in decimal.
pub uninterp spec fn table_text(header: Seq<Seq<char>>, rows: Seq<(Seq<char>, Seq<int>)>) -> Seq<
    char,
>;

/// The rows of a table, as plain values.
pub open spec fn rows_view(rows: Seq<(String, Vec<i128>)>) -> Seq<(Seq<char>, Seq<int>)> {
    rows.map_values(|row: (String, Vec<i128>)| (row.0@, row.1@.map_values(|x: i128| x as int)))
}

/// Relies on prettytable's `Table` and its `Display`: the text depends on the
/// cells alone, each number being written by its `to_string`. Laying out a
/// cell that holds an escape character can fail an assertion of prettytable's
/// width computation, so no header cell or name may hold one.
#[verifier::external_body]
pub(crate) fn render_table(header: &Vec<String>, rows: &Vec<(String, Vec<i128>)>) -> (r: String)
    requires
        all_printable(str_seq(header@)),
        forall|i: int| 0 <= i < rows@.len() ==> printable((#[trigger] rows@[i]).0@),
    ensures
        r@ == table_text(str_seq(header@), rows_view(rows@)),
{
    let mut table = prettytable::Table::new();
    table.add_row(prettytable::Row::from(header.iter()));
    for (name, numbers) in rows.iter() {
        let mut cells: Vec<String> = vec![name.clone()];
        cells.extend(numbers.iter().map(|n| n.to_string()));
        table.add_row(prettytable::Row::from(cells));
    }
    table.to_string()
}

} // verus!
