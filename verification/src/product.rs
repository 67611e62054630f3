use vstd::prelude::*;

verus! {

/// No character occurs twice in `s`.
pub open spec fn distinct_chars(s: Seq<char>) -> bool {
    forall|i: int, j: int| 0 <= i < j < s.len() ==> s[i] != s[j]
}

/// No word occurs twice in `ws`.
pub open spec fn distinct_words(ws: Seq<Seq<char>>) -> bool {
    forall|i: int, j: int| 0 <= i < j < ws.len() ==> ws[i] != ws[j]
}

/// Every word of `prev` extended by one final symbol drawn from `items`:
/// one block of extensions per symbol, each block in `prev`'s order.
pub open spec fn extend_all(prev: Seq<Seq<char>>, items: Seq<char>) -> Seq<Seq<char>>
    decreases items.len(),
{
    if items.len() == 0 {
        Seq::<Seq<char>>::empty()
    } else {
        extend_all(prev, items.drop_last()) + prev.map_values(|w: Seq<char>| w.push(items.last()))
    }
}

/// The cartesian product of the symbol lists: every word that draws its
/// `j`-th symbol from `lists[j]`, enumerated by nesting the symbol positions.
pub open spec fn product(lists: Seq<Seq<char>>) -> Seq<Seq<char>>
    decreases lists.len(),
{
    if lists.len() == 0 {
        seq![Seq::<char>::empty()]
    } else {
        extend_all(product(lists.drop_last()), lists.last())
    }
}

pub proof fn lemma_extend_all_len(prev: Seq<Seq<char>>, items: Seq<char>)
    ensures
        extend_all(prev, items).len() == items.len() * prev.len(),
    decreases items.len(),
{
    if items.len() == 0 {
    } else {
        lemma_extend_all_len(prev, items.drop_last());
        assert(extend_all(prev, items).len() == (items.len() - 1) * prev.len() + prev.len());
        assert((items.len() - 1) * prev.len() + prev.len() == items.len() * prev.len())
            by (nonlinear_arith);
    }
}

/// Two pushes agree only when both the base words and the pushed symbols do.
pub proof fn lemma_push_injective(a: Seq<char>, b: Seq<char>, x: char, y: char)
    requires
        a.push(x) == b.push(y),
    ensures
        a == b,
        x == y,
{
    assert(a.push(x).len() == a.len() + 1);
    assert(b.push(y).len() == b.len() + 1);
    assert(x == a.push(x)[a.len() as int]);
    assert(y == b.push(y)[b.len() as int]);
    assert(a =~= b) by {
        assert forall|k: int| 0 <= k < a.len() implies a[k] == b[k] by {
            assert(a[k] == a.push(x)[k]);
            assert(b[k] == b.push(y)[k]);
        }
    }
}

pub proof fn lemma_extend_all_contains(prev: Seq<Seq<char>>, items: Seq<char>, ri: int, ii: int)
    requires
        0 <= ri < prev.len(),
        0 <= ii < items.len(),
    ensures
        extend_all(prev, items).contains(prev[ri].push(items[ii])),
    decreases items.len(),
{
    let e = extend_all(prev, items);
    let eprev = extend_all(prev, items.drop_last());
    let block = prev.map_values(|w: Seq<char>| w.push(items.last()));
    let w = prev[ri].push(items[ii]);
    if ii == items.len() - 1 {
        assert(block[ri] == w);
        assert(e[eprev.len() + ri] == w);
        assert(0 <= eprev.len() + ri < e.len());
        assert(e.contains(w));
    } else {
        lemma_extend_all_contains(prev, items.drop_last(), ri, ii);
        assert(items.drop_last()[ii] == items[ii]);
        let n = choose|n: int| 0 <= n < eprev.len() && eprev[n] == w;
        assert(e[n] == w);
        assert(e.contains(w));
    }
}

pub proof fn lemma_extend_all_elem(prev: Seq<Seq<char>>, items: Seq<char>, n: int)
    requires
        0 <= n < extend_all(prev, items).len(),
    ensures
        exists|ri: int, ii: int|
            0 <= ri < prev.len() && 0 <= ii < items.len() && extend_all(prev, items)[n]
                == prev[ri].push(items[ii]),
    decreases items.len(),
{
    let e = extend_all(prev, items);
    let eprev = extend_all(prev, items.drop_last());
    let block = prev.map_values(|w: Seq<char>| w.push(items.last()));
    if n < eprev.len() {
        lemma_extend_all_elem(prev, items.drop_last(), n);
        let (ri, ii) = choose|ri: int, ii: int|
            0 <= ri < prev.len() && 0 <= ii < items.drop_last().len() && eprev[n] == prev[ri].push(
                items.drop_last()[ii],
            );
        assert(e[n] == eprev[n]);
        assert(items.drop_last()[ii] == items[ii]);
        assert(e[n] == prev[ri].push(items[ii]));
    } else {
        let ri = n - eprev.len();
        assert(0 <= ri < block.len());
        assert(e[n] == block[ri]);
        assert(block[ri] == prev[ri].push(items.last()));
        let ii = items.len() - 1;
        assert(e[n] == prev[ri].push(items[ii]));
    }
}

pub proof fn lemma_extend_all_distinct(prev: Seq<Seq<char>>, items: Seq<char>)
    requires
        distinct_words(prev),
        distinct_chars(items),
    ensures
        distinct_words(extend_all(prev, items)),
    decreases items.len(),
{
    if items.len() == 0 {
    } else {
        let e = extend_all(prev, items);
        let eprev = extend_all(prev, items.drop_last());
        let block = prev.map_values(|w: Seq<char>| w.push(items.last()));
        assert(distinct_chars(items.drop_last())) by {
            assert forall|i: int, j: int|
                0 <= i < j < items.drop_last().len() implies items.drop_last()[i]
                != items.drop_last()[j] by {
                assert(items.drop_last()[i] == items[i]);
                assert(items.drop_last()[j] == items[j]);
            }
        }
        lemma_extend_all_distinct(prev, items.drop_last());
        assert forall|n1: int, n2: int| 0 <= n1 < n2 < e.len() implies e[n1] != e[n2] by {
            if n2 < eprev.len() {
                assert(e[n1] == eprev[n1]);
                assert(e[n2] == eprev[n2]);
            } else if n1 >= eprev.len() {
                let r1 = n1 - eprev.len();
                let r2 = n2 - eprev.len();
                assert(e[n1] == prev[r1].push(items.last()));
                assert(e[n2] == prev[r2].push(items.last()));
                if e[n1] == e[n2] {
                    lemma_push_injective(prev[r1], prev[r2], items.last(), items.last());
                }
            } else {
                lemma_extend_all_elem(prev, items.drop_last(), n1);
                let (ri, ii) = choose|ri: int, ii: int|
                    0 <= ri < prev.len() && 0 <= ii < items.drop_last().len() && eprev[n1]
                        == prev[ri].push(items.drop_last()[ii]);
                let r2 = n2 - eprev.len();
                assert(e[n1] == prev[ri].push(items.drop_last()[ii]));
                assert(e[n2] == prev[r2].push(items.last()));
                if e[n1] == e[n2] {
                    lemma_push_injective(prev[ri], prev[r2], items.drop_last()[ii], items.last());
                    assert(items[ii] == items[items.len() - 1]);
                    assert(false);
                }
            }
        }
    }
}

/// Every word of the product draws its `j`-th symbol from `lists[j]`.
pub proof fn lemma_product_sound(lists: Seq<Seq<char>>, n: int)
    requires
        0 <= n < product(lists).len(),
    ensures
        product(lists)[n].len() == lists.len(),
        forall|j: int| 0 <= j < lists.len() ==> lists[j].contains(#[trigger] product(lists)[n][j]),
    decreases lists.len(),
{
    if lists.len() == 0 {
    } else {
        let prev = product(lists.drop_last());
        lemma_extend_all_elem(prev, lists.last(), n);
        let (ri, ii) = choose|ri: int, ii: int|
            0 <= ri < prev.len() && 0 <= ii < lists.last().len() && product(lists)[n] == prev[
                ri
            ].push(lists.last()[ii]);
        lemma_product_sound(lists.drop_last(), ri);
        let w = prev[ri];
        let c = lists.last()[ii];
        assert(product(lists)[n].len() == lists.len());
        assert forall|j: int| 0 <= j < lists.len() implies lists[j].contains(
            product(lists)[n][j],
        ) by {
            if j < lists.len() - 1 {
                assert(product(lists)[n][j] == w[j]);
                assert(lists.drop_last()[j] == lists[j]);
                assert(lists.drop_last()[j].contains(w[j]));
            } else {
                assert(product(lists)[n][j] == c);
                assert(lists.last().contains(c));
            }
        }
    }
}

/// Every word that draws each symbol from its list occurs in the product.
pub proof fn lemma_product_complete(lists: Seq<Seq<char>>, s: Seq<char>)
    requires
        s.len() == lists.len(),
        forall|j: int| 0 <= j < lists.len() ==> lists[j].contains(#[trigger] s[j]),
    ensures
        product(lists).contains(s),
    decreases lists.len(),
{
    if lists.len() == 0 {
        assert(s =~= Seq::<char>::empty());
        assert(product(lists)[0] == s);
        assert(product(lists).contains(s));
    } else {
        let lists2 = lists.drop_last();
        let s2 = s.drop_last();
        assert forall|j: int| 0 <= j < lists2.len() implies lists2[j].contains(#[trigger] s2[j]) by {
            assert(s2[j] == s[j]);
            assert(lists2[j] == lists[j]);
        }
        lemma_product_complete(lists2, s2);
        let prev = product(lists2);
        let ri = choose|ri: int| 0 <= ri < prev.len() && prev[ri] == s2;
        assert(lists[lists.len() - 1].contains(s[lists.len() - 1]));
        let last_list = lists.last();
        let ii = choose|ii: int| 0 <= ii < last_list.len() && last_list[ii] == s.last();
        lemma_extend_all_contains(prev, last_list, ri, ii);
        assert(prev[ri].push(last_list[ii]) =~= s);
    }
}

/// Builds the cartesian product of the symbol lists: every combination that
/// picks one symbol from each list, in the nesting enumeration order.
pub fn multi_cartesian_product(input: &Vec<Vec<char>>) -> (result: Vec<Vec<char>>)
    ensures
        result.deep_view() == product(input.deep_view()),
{
    let ghost dv_in = input.deep_view();
    let mut result: Vec<Vec<char>> = Vec::new();
    result.push(Vec::new());
    assert(result.deep_view() =~~= product(dv_in.take(0)));

    let mut k: usize = 0;
    while k < input.len()
        invariant
            k <= input.len(),
            dv_in == input.deep_view(),
            result.deep_view() == product(dv_in.take(k as int)),
        decreases input.len() - k,
    {
        let ghost prev = result.deep_view();
        let sub_list: &Vec<char> = &input[k];
        let ghost sub = sub_list@;
        assert(sub == dv_in[k as int]) by {
            assert(sub_list.deep_view() =~= sub_list@);
        }
        let mut new_result: Vec<Vec<char>> = Vec::new();

        let mut ii: usize = 0;
        while ii < sub_list.len()
            invariant
                ii <= sub_list.len(),
                sub == sub_list@,
                prev == result.deep_view(),
                new_result.deep_view() == extend_all(prev, sub.take(ii as int)),
            decreases sub_list.len() - ii,
        {
            let item: char = sub_list[ii];
            let ghost block_start = new_result.deep_view();

            let mut ri: usize = 0;
            while ri < result.len()
                invariant
                    ri <= result.len(),
                    sub == sub_list@,
                    ii < sub.len(),
                    item == sub[ii as int],
                    prev == result.deep_view(),
                    block_start == extend_all(prev, sub.take(ii as int)),
                    new_result.deep_view() == block_start + prev.take(ri as int).map_values(
                        |w: Seq<char>| w.push(item),
                    ),
                decreases result.len() - ri,
            {
                let mut new_combination: Vec<char> = result[ri].clone();
                assert(new_combination@ =~= prev[ri as int]) by {
                    assert(forall|t: int|
                        0 <= t < new_combination@.len() ==> cloned::<char>(
                            result[ri as int]@[t],
                            #[trigger] new_combination@[t],
                        ));
                    assert(result[ri as int].deep_view() =~= result[ri as int]@);
                    assert(result.deep_view()[ri as int] == result[ri as int].deep_view());
                }
                new_combination.push(item);
                let ghost pre = new_result.deep_view();
                let ghost pre_shallow = new_result@;
                new_result.push(new_combination);
                proof {
                    let blk2 = prev.take(ri as int + 1).map_values(|w: Seq<char>| w.push(item));
                    assert(new_combination.deep_view() =~= new_combination@);
                    assert(new_combination@ == prev[ri as int].push(item));
                    assert forall|t: int|
                        0 <= t < pre_shallow.len() implies new_result.deep_view()[t] == pre[t] by {
                        assert(new_result@[t] == pre_shallow[t]);
                    }
                    assert(pre.len() == block_start.len() + ri);
                    assert(new_result.deep_view()[pre_shallow.len() as int]
                        == new_combination.deep_view());
                    assert forall|t: int|
                        0 <= t < new_result.deep_view().len() implies new_result.deep_view()[t] == (
                        block_start + blk2)[t] by {
                        if t < block_start.len() {
                            assert(pre[t] == block_start[t]);
                        } else if t < pre.len() {
                            let u = t - block_start.len();
                            assert(pre[t] == prev.take(ri as int)[u].push(item));
                            assert(blk2[u] == prev.take(ri as int + 1)[u].push(item));
                            assert(prev.take(ri as int)[u] == prev[u]);
                            assert(prev.take(ri as int + 1)[u] == prev[u]);
                        } else {
                            assert(t == block_start.len() + ri);
                            assert(blk2[ri as int] == prev.take(ri as int + 1)[ri as int].push(
                                item,
                            ));
                            assert(prev.take(ri as int + 1)[ri as int] == prev[ri as int]);
                        }
                    }
                    assert(new_result.deep_view() =~= block_start + blk2);
                }
                ri = ri + 1;
            }
            proof {
                let stepped = sub.take(ii as int + 1);
                assert(stepped.drop_last() =~= sub.take(ii as int));
                assert(stepped.last() == item);
                assert(prev.take(result.len() as int) =~= prev);
                assert(new_result.deep_view() =~= extend_all(prev, stepped)) by {
                    let lhs = block_start + prev.map_values(|w: Seq<char>| w.push(item));
                    let rhs = extend_all(prev, stepped.drop_last()) + prev.map_values(
                        |w: Seq<char>| w.push(stepped.last()),
                    );
                    assert(lhs =~= rhs);
                }
            }
            ii = ii + 1;
        }
        proof {
            assert(sub.take(sub.len() as int) =~= sub);
            let next = dv_in.take(k as int + 1);
            assert(next.drop_last() =~= dv_in.take(k as int));
            assert(next.last() == sub);
            assert(new_result.deep_view() == extend_all(product(next.drop_last()), next.last()));
            assert(new_result.deep_view() == product(next));
        }
        result = new_result;
        k = k + 1;
    }
    assert(dv_in.take(input.len() as int) =~= dv_in);
    result
}

/// The product never repeats a word when no list repeats a symbol.
pub proof fn lemma_product_distinct(lists: Seq<Seq<char>>)
    requires
        forall|j: int| 0 <= j < lists.len() ==> distinct_chars(#[trigger] lists[j]),
    ensures
        distinct_words(product(lists)),
    decreases lists.len(),
{
    if lists.len() == 0 {
    } else {
        assert forall|j: int|
            0 <= j < lists.drop_last().len() implies distinct_chars(
            #[trigger] lists.drop_last()[j],
        ) by {
            assert(lists.drop_last()[j] == lists[j]);
        }
        lemma_product_distinct(lists.drop_last());
        assert(distinct_chars(lists[lists.len() - 1]));
        lemma_extend_all_distinct(product(lists.drop_last()), lists.last());
    }
}

} // verus!
