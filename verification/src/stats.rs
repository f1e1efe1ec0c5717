//! The columns of the statistics that are computed for each column of a
//! file, some of them only on demand.
use vstd::prelude::*;

verus! {

/// The names of the statistics, in order: those always computed, the
/// quartiles when numbers are kept, the approximate ones on demand, and
/// the cardinality and modes when frequencies are kept.
pub open spec fn stats_header_names(numbers: bool, approx: bool, frequencies: bool) -> Seq<
    Seq<char>,
> {
    seq!["field"@, "count"@, "count_empty"@, "type"@, "types"@, "sum"@, "mean"@] + (if numbers {
        seq!["q1"@, "median"@, "q3"@]
    } else {
        Seq::empty()
    }) + seq!["variance"@, "stddev"@, "min"@, "max"@] + (if approx {
        seq!["approx_cardinality"@, "approx_q1"@, "approx_median"@, "approx_q3"@]
    } else {
        Seq::empty()
    }) + (if frequencies {
        seq!["cardinality"@, "mode"@, "tied_for_mode"@]
    } else {
        Seq::empty()
    }) + seq!["lex_first"@, "lex_last"@, "min_length"@, "max_length"@]
}

pub open spec fn strings_of(v: Seq<String>) -> Seq<Seq<char>> {
    v.map_values(|s: String| s@)
}

fn push_name(out: &mut Vec<String>, name: &str)
    ensures
        strings_of(final(out)@) == strings_of(old(out)@).push(name@),
{
    out.push(name.to_owned());
    assert(strings_of(final(out)@) =~= strings_of(old(out)@).push(name@));
}

/// The header of the statistics, given which of the statistics computed
/// on demand are.
pub fn stats_headers(numbers: bool, approx: bool, frequencies: bool) -> (r: Vec<String>)
    ensures
        strings_of(r@) == stats_header_names(numbers, approx, frequencies),
{
    let mut h: Vec<String> = Vec::new();
    push_name(&mut h, "field");
    push_name(&mut h, "count");
    push_name(&mut h, "count_empty");
    push_name(&mut h, "type");
    push_name(&mut h, "types");
    push_name(&mut h, "sum");
    push_name(&mut h, "mean");
    let ghost a = strings_of(h@);
    if numbers {
        push_name(&mut h, "q1");
        push_name(&mut h, "median");
        push_name(&mut h, "q3");
    }
    let ghost b = strings_of(h@);
    push_name(&mut h, "variance");
    push_name(&mut h, "stddev");
    push_name(&mut h, "min");
    push_name(&mut h, "max");
    let ghost c = strings_of(h@);
    if approx {
        push_name(&mut h, "approx_cardinality");
        push_name(&mut h, "approx_q1");
        push_name(&mut h, "approx_median");
        push_name(&mut h, "approx_q3");
    }
    let ghost d = strings_of(h@);
    if frequencies {
        push_name(&mut h, "cardinality");
        push_name(&mut h, "mode");
        push_name(&mut h, "tied_for_mode");
    }
    let ghost e = strings_of(h@);
    push_name(&mut h, "lex_first");
    push_name(&mut h, "lex_last");
    push_name(&mut h, "min_length");
    push_name(&mut h, "max_length");
    assert(a =~= seq!["field"@, "count"@, "count_empty"@, "type"@, "types"@, "sum"@, "mean"@]);
    assert(b =~= a + (if numbers {
        seq!["q1"@, "median"@, "q3"@]
    } else {
        Seq::empty()
    }));
    assert(c =~= b + seq!["variance"@, "stddev"@, "min"@, "max"@]);
    assert(d =~= c + (if approx {
        seq!["approx_cardinality"@, "approx_q1"@, "approx_median"@, "approx_q3"@]
    } else {
        Seq::empty()
    }));
    assert(e =~= d + (if frequencies {
        seq!["cardinality"@, "mode"@, "tied_for_mode"@]
    } else {
        Seq::empty()
    }));
    assert(strings_of(h@) =~= e + seq!["lex_first"@, "lex_last"@, "min_length"@, "max_length"@]);
    h
}

} // verus!
