use crate::cell::Cell;
use crate::cell::CellV;
use crate::cell::text_form;
use crate::cell::text_of;
use crate::text::dec_digits;
use crate::text::u64_text;
use vstd::prelude::*;

verus! {

/// How many of the first `n` texts equal `t`.
pub open spec fn count_eq(texts: Seq<Seq<char>>, t: Seq<char>, n: int) -> nat
    decreases n,
{
    if n <= 0 {
        0
    } else {
        count_eq(texts, t, n - 1) + (if texts[n - 1] == t {
            1nat
        } else {
            0nat
        })
    }
}

/// The text forms of a header row's cells.
pub open spec fn header_texts(cells: Seq<CellV>) -> Seq<Seq<char>> {
    cells.map_values(|c: CellV| text_of(c))
}

/// The deduplicated name of column `i`: the first occurrence of a text keeps
/// it unchanged; the k-th repetition gains the suffix `_duplicated_k`.
pub open spec fn dedup_name(texts: Seq<Seq<char>>, i: int) -> Seq<char> {
    let k = count_eq(texts, texts[i], i);
    if k == 0 {
        texts[i]
    } else {
        texts[i] + "_duplicated_"@ + dec_digits(k)
    }
}

/// Converts a header row into unique-by-renaming column names.
///
/// Collisions are renamed deterministically; the suffixed forms cannot
/// collide with earlier occurrences of a different text unless an input
/// already contains a literal `_duplicated_k` suffix, an accepted limitation.
#[verifier::loop_isolation(false)]
pub fn dedup_headers(row: &Vec<Cell>) -> (r: Vec<String>)
    ensures
        r@.len() == row@.len(),
        forall|i: int|
            0 <= i < r@.len() ==> r@[i]@ == dedup_name(header_texts(row.deep_view()), i),
{
    let ghost txts: Seq<Seq<char>> = header_texts(row.deep_view());
    let n = row.len();
    let mut texts: Vec<String> = Vec::new();
    let mut i: usize = 0;
    while i < n
        invariant
            i == texts@.len() <= n,
            forall|j: int| 0 <= j < i ==> texts@[j]@ == txts[j],
        decreases n - i,
    {
        texts.push(text_form(&row[i]));
        i += 1;
    }
    let mut out: Vec<String> = Vec::new();
    let mut p: usize = 0;
    while p < n
        invariant
            p == out@.len() <= n,
            forall|j: int| 0 <= j < p ==> out@[j]@ == dedup_name(txts, j),
        decreases n - p,
    {
        let mut k: usize = 0;
        let mut j: usize = 0;
        while j < p
            invariant
                0 <= j <= p,
                k <= j,
                k == count_eq(txts, txts[p as int], j as int),
            decreases p - j,
        {
            if texts[j].eq(&texts[p]) {
                k += 1;
            }
            j += 1;
        }
        if k == 0 {
            out.push(texts[p].clone());
        } else {
            let mut name = texts[p].clone();
            name.append("_duplicated_");
            let num = u64_text(k as u64);
            name.append(num.as_str());
            out.push(name);
        }
        p += 1;
    }
    out
}

} // verus!
