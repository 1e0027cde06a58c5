//! Query-string handling for the list and feed endpoints: splitting the
//! raw query into `name=value` pairs, parsing pagination integers, and
//! folding the pairs into `FilterParams` with their defaults.

use vstd::prelude::*;

use crate::model::ArticleError;
use crate::queries::FilterParams;
use vstd::string::StrSliceExecFns;

verus! {

/// Split `s` at every occurrence of `sep`: one piece more than there are
/// separators, in order, separators dropped.
pub open spec fn split_rec(s: Seq<char>, sep: char) -> Seq<Seq<char>>
    decreases s.len(),
{
    if s.len() == 0 {
        seq![Seq::<char>::empty()]
    } else {
        let p = split_rec(s.drop_last(), sep);
        if s.last() == sep {
            p.push(Seq::<char>::empty())
        } else {
            p.update(p.len() - 1, p.last().push(s.last()))
        }
    }
}

/// Splitting yields at least one piece.
pub proof fn lemma_split_rec_len(s: Seq<char>, sep: char)
    ensures
        split_rec(s, sep).len() >= 1,
    decreases s.len(),
{
    if s.len() > 0 {
        lemma_split_rec_len(s.drop_last(), sep);
    }
}

/// Whether `c` is a decimal digit.
pub open spec fn is_digit(c: char) -> bool {
    48 <= c as u32 && c as u32 <= 57
}

/// The value of the digit `c`.
pub open spec fn digit_val(c: char) -> int {
    c as u32 - 48
}

/// The number a run of decimal digits denotes, or nothing if the run is
/// empty or holds a non-digit.
pub open spec fn parse_uint(s: Seq<char>) -> Option<int>
    decreases s.len(),
{
    if s.len() == 0 {
        Option::None
    } else if !is_digit(s.last()) {
        Option::None
    } else {
        if s.len() == 1 {
            Option::Some(digit_val(s.last()))
        } else {
            match parse_uint(s.drop_last()) {
                Option::None => Option::None,
                Option::Some(v) => Option::Some(v * 10 + digit_val(s.last())),
            }
        }
    }
}

/// A non-digit anywhere makes the run denote nothing.
pub proof fn lemma_parse_uint_none(s: Seq<char>, k: int)
    requires
        0 <= k < s.len(),
        !is_digit(s[k]),
    ensures
        parse_uint(s) is None,
    decreases s.len(),
{
    if k < s.len() - 1 {
        lemma_parse_uint_none(s.drop_last(), k);
    }
}

/// A digit run denotes a non-negative number.
pub proof fn lemma_parse_uint_nonneg(s: Seq<char>)
    ensures
        parse_uint(s) matches Option::Some(v) ==> v >= 0,
    decreases s.len(),
{
    if s.len() > 1 {
        lemma_parse_uint_nonneg(s.drop_last());
    }
}

/// The integer a string denotes: an optional single leading `+` or `-`
/// followed by at least one decimal digit, or nothing.
pub open spec fn parse_int_spec(s: Seq<char>) -> Option<int> {
    if s.len() == 0 {
        Option::None
    } else if s[0] == '-' {
        match parse_uint(s.skip(1)) {
            Option::None => Option::None,
            Option::Some(v) => Option::Some(-v),
        }
    } else if s[0] == '+' {
        parse_uint(s.skip(1))
    } else {
        parse_uint(s)
    }
}

/// The optional criteria and pagination of a listing request, at the
/// specification level.
pub struct FilterSpec {
    pub tag: Seq<char>,
    pub author: Seq<char>,
    pub favorited: Seq<char>,
    pub offset: int,
    pub limit: int,
}

/// No criteria, first page of twenty.
pub open spec fn default_filter() -> FilterSpec {
    FilterSpec {
        tag: Seq::<char>::empty(),
        author: Seq::<char>::empty(),
        favorited: Seq::<char>::empty(),
        offset: 0,
        limit: 20,
    }
}

/// Apply one `name=value` pair of a list query: the three criteria take the
/// value as text, the two pagination names demand an integer that fits an
/// `i32`, an unknown name is ignored, and a known name without a value is a
/// validation error.
pub open spec fn apply_param(f: FilterSpec, piece: Seq<char>) -> Option<FilterSpec> {
    let kv = split_rec(piece, '=');
    let k = kv[0];
    if kv.len() >= 2 {
        let v = kv[1];
        if k == "tag"@ {
            Option::Some(FilterSpec { tag: v, ..f })
        } else if k == "author"@ {
            Option::Some(FilterSpec { author: v, ..f })
        } else if k == "favorited"@ {
            Option::Some(FilterSpec { favorited: v, ..f })
        } else if k == "offset"@ {
            match parse_int_spec(v) {
                Option::Some(n) => if i32::MIN <= n <= i32::MAX {
                    Option::Some(FilterSpec { offset: n, ..f })
                } else {
                    Option::None
                },
                Option::None => Option::None,
            }
        } else if k == "limit"@ {
            match parse_int_spec(v) {
                Option::Some(n) => if i32::MIN <= n <= i32::MAX {
                    Option::Some(FilterSpec { limit: n, ..f })
                } else {
                    Option::None
                },
                Option::None => Option::None,
            }
        } else {
            Option::Some(f)
        }
    } else {
        if k == "tag"@ || k == "author"@ || k == "favorited"@ || k == "offset"@ || k
            == "limit"@ {
            Option::None
        } else {
            Option::Some(f)
        }
    }
}

/// Apply one pair of a feed query: only the pagination names are read;
/// everything else is ignored.
pub open spec fn apply_feed_param(f: FilterSpec, piece: Seq<char>) -> Option<FilterSpec> {
    let kv = split_rec(piece, '=');
    let k = kv[0];
    if kv.len() >= 2 {
        let v = kv[1];
        if k == "offset"@ {
            match parse_int_spec(v) {
                Option::Some(n) => if i32::MIN <= n <= i32::MAX {
                    Option::Some(FilterSpec { offset: n, ..f })
                } else {
                    Option::None
                },
                Option::None => Option::None,
            }
        } else if k == "limit"@ {
            match parse_int_spec(v) {
                Option::Some(n) => if i32::MIN <= n <= i32::MAX {
                    Option::Some(FilterSpec { limit: n, ..f })
                } else {
                    Option::None
                },
                Option::None => Option::None,
            }
        } else {
            Option::Some(f)
        }
    } else {
        if k == "offset"@ || k == "limit"@ {
            Option::None
        } else {
            Option::Some(f)
        }
    }
}

/// Fold list-query pairs left to right over `f`: later pairs win.
pub open spec fn fold_params(pieces: Seq<Seq<char>>, f: FilterSpec) -> Option<FilterSpec>
    decreases pieces.len(),
{
    if pieces.len() == 0 {
        Option::Some(f)
    } else {
        match fold_params(pieces.drop_last(), f) {
            Option::None => Option::None,
            Option::Some(g) => apply_param(g, pieces.last()),
        }
    }
}

/// Fold feed-query pairs left to right over `f`: later pairs win.
pub open spec fn fold_feed_params(pieces: Seq<Seq<char>>, f: FilterSpec) -> Option<FilterSpec>
    decreases pieces.len(),
{
    if pieces.len() == 0 {
        Option::Some(f)
    } else {
        match fold_feed_params(pieces.drop_last(), f) {
            Option::None => Option::None,
            Option::Some(g) => apply_feed_param(g, pieces.last()),
        }
    }
}

/// What a raw list query string denotes.
pub open spec fn list_params_spec(q: Seq<char>) -> Option<FilterSpec> {
    fold_params(split_rec(q, '&'), default_filter())
}

/// What a raw feed query string denotes.
pub open spec fn feed_params_spec(q: Seq<char>) -> Option<FilterSpec> {
    fold_feed_params(split_rec(q, '&'), default_filter())
}

/// The specification-level reading of executable filter parameters.
pub open spec fn filter_spec_of(f: FilterParams) -> FilterSpec {
    FilterSpec {
        tag: f.tag@,
        author: f.author@,
        favorited: f.favorited@,
        offset: f.offset as int,
        limit: f.limit as int,
    }
}

/// Once a prefix of the pairs folds to nothing, the whole query does.
pub proof fn lemma_fold_none(pieces: Seq<Seq<char>>, f: FilterSpec, i: int)
    requires
        0 <= i <= pieces.len(),
        fold_params(pieces.take(i), f) is None,
    ensures
        fold_params(pieces, f) is None,
    decreases pieces.len(),
{
    if i == pieces.len() {
        assert(pieces.take(i) =~= pieces);
    } else {
        assert(pieces.drop_last().take(i) =~= pieces.take(i));
        lemma_fold_none(pieces.drop_last(), f, i);
    }
}

/// Once a prefix of the pairs folds to nothing, the whole feed query does.
pub proof fn lemma_fold_feed_none(pieces: Seq<Seq<char>>, f: FilterSpec, i: int)
    requires
        0 <= i <= pieces.len(),
        fold_feed_params(pieces.take(i), f) is None,
    ensures
        fold_feed_params(pieces, f) is None,
    decreases pieces.len(),
{
    if i == pieces.len() {
        assert(pieces.take(i) =~= pieces);
    } else {
        assert(pieces.drop_last().take(i) =~= pieces.take(i));
        lemma_fold_feed_none(pieces.drop_last(), f, i);
    }
}

/// Whether a string reads as the given literal.
fn str_eq_lit(a: &String, lit: &str) -> (r: bool)
    ensures
        r == (a@ == lit@),
{
    let l: String = lit.to_owned();
    *a == l
}

/// Split `s` at every occurrence of `sep`.
pub(crate) fn split_str(s: &str, sep: char) -> (r: Vec<String>)
    ensures
        r@.map_values(crate::model::str_view()) == split_rec(s@, sep),
{
    let n = s.unicode_len();
    let mut pieces: Vec<String> = Vec::new();
    let mut start: usize = 0;
    let mut i: usize = 0;
    proof {
        assert(s@.take(0) =~= Seq::<char>::empty());
        assert(pieces@.map_values(crate::model::str_view()).push(s@.subrange(0, 0)) =~= split_rec(
            s@.take(0),
            sep,
        ));
    }
    while i < n
        invariant
            n == s@.len(),
            start <= i <= n,
            pieces@.map_values(crate::model::str_view()).push(
                s@.subrange(start as int, i as int),
            ) == split_rec(s@.take(i as int), sep),
        decreases n - i,
    {
        let ghost pre_pieces = pieces@;
        let ghost cur = s@.subrange(start as int, i as int);
        proof {
            assert(s@.take(i + 1).drop_last() =~= s@.take(i as int));
            assert(s@.take(i + 1).last() == s@[i as int]);
        }
        let c = s.get_char(i);
        if c == sep {
            pieces.push(s.substring_char(start, i).to_owned());
            start = i + 1;
            proof {
                assert(pieces@.map_values(crate::model::str_view()) =~= pre_pieces.map_values(
                    crate::model::str_view(),
                ).push(cur));
                assert(s@.subrange(start as int, i + 1) =~= Seq::<char>::empty());
                assert(pieces@.map_values(crate::model::str_view()).push(
                    s@.subrange(start as int, i + 1),
                ) =~= split_rec(s@.take(i + 1), sep));
            }
        } else {
            proof {
                let p = split_rec(s@.take(i as int), sep);
                assert(p.last() == cur);
                assert(p.len() - 1 == pre_pieces.map_values(crate::model::str_view()).len());
                assert(s@.subrange(start as int, i + 1) =~= cur.push(s@[i as int]));
                assert(pieces@.map_values(crate::model::str_view()).push(
                    s@.subrange(start as int, i + 1),
                ) =~= p.update(p.len() - 1, p.last().push(s@[i as int])));
            }
        }
        i += 1;
    }
    proof {
        assert(s@.take(n as int) =~= s@);
    }
    let last = s.substring_char(start, n).to_owned();
    pieces.push(last);
    proof {
        assert(pieces@.map_values(crate::model::str_view()) =~= split_rec(s@, sep));
    }
    pieces
}

/// Parse a decimal integer that fits an `i32`, as the pagination parameters
/// demand; anything else (empty, stray characters, out of range) is
/// nothing.
pub(crate) fn parse_i32(s: &str) -> (r: Option<i32>)
    ensures
        ({
            let p = parse_int_spec(s@);
            match r {
                Option::Some(v) => p == Option::Some(v as int),
                Option::None => (p is None || (p matches Option::Some(v) && (v > i32::MAX
                    || v < i32::MIN))),
            }
        }),
{
    let n = s.unicode_len();
    if n == 0 {
        return Option::None;
    }
    let first = s.get_char(0);
    let neg = first == '-';
    let skip_sign = neg || first == '+';
    let d0: usize = if skip_sign {
        1
    } else {
        0
    };
    let ghost digits = if skip_sign {
        s@.skip(1)
    } else {
        s@
    };
    if skip_sign && n == 1 {
        proof {
            assert(digits =~= Seq::<char>::empty());
        }
        return Option::None;
    }
    let mut acc: u64 = 0;
    let mut over: bool = false;
    let mut i: usize = d0;
    proof {
        assert(digits.take(0) =~= Seq::<char>::empty());
    }
    while i < n
        invariant
            n == s@.len(),
            d0 <= i <= n,
            d0 == (if skip_sign {
                1int
            } else {
                0int
            }),
            digits == (if skip_sign {
                s@.skip(1)
            } else {
                s@
            }),
            digits.len() == n - d0,
            n >= 1,
            neg == (s@[0] == '-'),
            skip_sign == (neg || s@[0] == '+'),
            forall|k: int| 0 <= k < i - d0 ==> digits[k] == s@[k + d0],
            !over ==> acc <= 0x8000_0000u64,
            over ==> i - d0 > 0,
            i - d0 == 0 ==> acc == 0 && !over,
            i - d0 > 0 ==> (if over {
                parse_uint(digits.take(i - d0)) matches Option::Some(v) && v > 0x8000_0000
            } else {
                parse_uint(digits.take(i - d0)) == Option::Some(acc as int)
            }),
        decreases n - i,
    {
        let c = s.get_char(i);
        proof {
            assert(digits[i - d0] == s@[i as int]);
            assert(digits.take(i - d0 + 1).drop_last() =~= digits.take(i - d0));
            assert(digits.take(i - d0 + 1).last() == digits[i - d0]);
        }
        let cv = c as u32;
        if cv < 48 || cv > 57 {
            proof {
                lemma_parse_uint_none(digits, i - d0);
                assert(parse_uint(digits) is None);
                if skip_sign {
                    if neg {
                        assert(s@[0] == '-');
                        assert(parse_int_spec(s@) is None);
                    } else {
                        assert(s@[0] == '+');
                        assert(parse_int_spec(s@) is None);
                    }
                } else {
                    assert(s@[0] != '-' && s@[0] != '+');
                    assert(parse_int_spec(s@) is None);
                }
            }
            return Option::None;
        }
        let d: u64 = (cv - 48) as u64;
        proof {
            if i - d0 > 0 && !over {
                lemma_parse_uint_nonneg(digits.take(i - d0));
            }
        }
        if over {
            proof {
                assert(parse_uint(digits.take(i - d0 + 1)) matches Option::Some(v) && v
                    > 0x8000_0000);
            }
        } else if acc > 0x0CCC_CCCCu64 || acc * 10 + d > 0x8000_0000u64 {
            over = true;
            proof {
                assert(parse_uint(digits.take(i - d0 + 1)) == Option::Some(
                    (acc as int) * 10 + digit_val(digits[i - d0]),
                ));
                assert((acc as int) * 10 + digit_val(digits[i - d0]) > 0x8000_0000);
            }
        } else {
            acc = acc * 10 + d;
        }
        i += 1;
    }
    proof {
        assert(digits.take(n - d0) =~= digits);
    }
    if over {
        return Option::None;
    }
    if neg {
        if acc > 0x8000_0000u64 {
            return Option::None;
        }
        let v: i64 = -(acc as i64);
        Option::Some(v as i32)
    } else {
        if acc > 0x7FFF_FFFFu64 {
            return Option::None;
        }
        Option::Some(acc as i32)
    }
}

/// Parse a raw list query string (`tag=...&author=...&offset=...`) into
/// `FilterParams`, with absent criteria empty and pagination defaulting to
/// offset 0 and limit 20. A malformed pair is rejected as a validation
/// error before any store access.
pub fn parse_list_params(q: &str) -> (r: Result<FilterParams, ArticleError>)
    ensures
        match r {
            Result::Ok(f) => list_params_spec(q@) == Option::Some(filter_spec_of(f)),
            Result::Err(e) => e == ArticleError::Validation && list_params_spec(q@) is None,
        },
{
    let pieces = split_str(q, '&');
    let mut f = FilterParams {
        tag: String::new(),
        author: String::new(),
        favorited: String::new(),
        offset: 0,
        limit: 20,
    };
    let ghost ps = split_rec(q@, '&');
    proof {
        assert(ps.take(0) =~= Seq::<Seq<char>>::empty());
        assert(filter_spec_of(f) == default_filter());
    }
    let mut i: usize = 0;
    while i < pieces.len()
        invariant
            pieces@.map_values(crate::model::str_view()) == ps,
            ps == split_rec(q@, '&'),
            i <= pieces@.len(),
            fold_params(ps.take(i as int), default_filter()) == Option::Some(filter_spec_of(f)),
        decreases pieces@.len() - i,
    {
        let ghost fpre = filter_spec_of(f);
        proof {
            assert(ps.take(i + 1).drop_last() =~= ps.take(i as int));
            assert(ps.take(i + 1).last() == ps[i as int]);
            assert(ps[i as int] == pieces@[i as int]@);
        }
        let kv = split_str(pieces[i].as_str(), '=');
        proof {
            lemma_split_rec_len(pieces@[i as int]@, '=');
            assert(kv@[0]@ == split_rec(ps[i as int], '=')[0]);
        }
        let is_tag = str_eq_lit(&kv[0], "tag");
        let is_author = str_eq_lit(&kv[0], "author");
        let is_favorited = str_eq_lit(&kv[0], "favorited");
        let is_offset = str_eq_lit(&kv[0], "offset");
        let is_limit = str_eq_lit(&kv[0], "limit");
        if kv.len() >= 2 {
            proof {
                assert(kv@[1]@ == split_rec(ps[i as int], '=')[1]);
            }
            if is_tag {
                f.tag = kv[1].clone();
            } else if is_author {
                f.author = kv[1].clone();
            } else if is_favorited {
                f.favorited = kv[1].clone();
            } else if is_offset {
                match parse_i32(kv[1].as_str()) {
                    Option::Some(v) => {
                        f.offset = v;
                    },
                    Option::None => {
                        proof {
                            assert(apply_param(fpre, ps[i as int]) is None);
                            lemma_fold_none(ps, default_filter(), i + 1);
                        }
                        return Result::Err(ArticleError::Validation);
                    },
                }
            } else if is_limit {
                match parse_i32(kv[1].as_str()) {
                    Option::Some(v) => {
                        f.limit = v;
                    },
                    Option::None => {
                        proof {
                            assert(apply_param(fpre, ps[i as int]) is None);
                            lemma_fold_none(ps, default_filter(), i + 1);
                        }
                        return Result::Err(ArticleError::Validation);
                    },
                }
            }
        } else {
            if is_tag || is_author || is_favorited || is_offset || is_limit {
                proof {
                    assert(apply_param(fpre, ps[i as int]) is None);
                    lemma_fold_none(ps, default_filter(), i + 1);
                }
                return Result::Err(ArticleError::Validation);
            }
        }
        proof {
            assert(fold_params(ps.take(i + 1), default_filter()) == Option::Some(
                filter_spec_of(f),
            ));
        }
        i += 1;
    }
    proof {
        assert(ps.take(ps.len() as int) =~= ps);
    }
    Result::Ok(f)
}

/// Parse a raw feed query string (`offset=...&limit=...`) into the
/// pagination pair, defaulting to offset 0 and limit 20; other names are
/// ignored, as the feed is always viewer-relative.
pub fn parse_feed_params(q: &str) -> (r: Result<(i32, i32), ArticleError>)
    ensures
        match r {
            Result::Ok(p) => feed_params_spec(q@) matches Option::Some(fs) && fs.offset
                == p.0 as int && fs.limit == p.1 as int,
            Result::Err(e) => e == ArticleError::Validation && feed_params_spec(q@) is None,
        },
{
    let pieces = split_str(q, '&');
    let mut offset: i32 = 0;
    let mut limit: i32 = 20;
    let ghost ps = split_rec(q@, '&');
    proof {
        assert(ps.take(0) =~= Seq::<Seq<char>>::empty());
    }
    let mut i: usize = 0;
    while i < pieces.len()
        invariant
            pieces@.map_values(crate::model::str_view()) == ps,
            ps == split_rec(q@, '&'),
            i <= pieces@.len(),
            fold_feed_params(ps.take(i as int), default_filter()) matches Option::Some(fs)
                && fs.offset == offset as int && fs.limit == limit as int,
        decreases pieces@.len() - i,
    {
        let ghost fpre = choose|fs: FilterSpec|
            fold_feed_params(ps.take(i as int), default_filter()) == Option::Some(fs);
        proof {
            assert(ps.take(i + 1).drop_last() =~= ps.take(i as int));
            assert(ps.take(i + 1).last() == ps[i as int]);
            assert(ps[i as int] == pieces@[i as int]@);
        }
        let kv = split_str(pieces[i].as_str(), '=');
        proof {
            lemma_split_rec_len(pieces@[i as int]@, '=');
            assert(kv@[0]@ == split_rec(ps[i as int], '=')[0]);
        }
        let is_offset = str_eq_lit(&kv[0], "offset");
        let is_limit = str_eq_lit(&kv[0], "limit");
        if kv.len() >= 2 {
            proof {
                assert(kv@[1]@ == split_rec(ps[i as int], '=')[1]);
            }
            if is_offset {
                match parse_i32(kv[1].as_str()) {
                    Option::Some(v) => {
                        offset = v;
                    },
                    Option::None => {
                        proof {
                            assert(apply_feed_param(fpre, ps[i as int]) is None);
                            lemma_fold_feed_none(ps, default_filter(), i + 1);
                        }
                        return Result::Err(ArticleError::Validation);
                    },
                }
            } else if is_limit {
                match parse_i32(kv[1].as_str()) {
                    Option::Some(v) => {
                        limit = v;
                    },
                    Option::None => {
                        proof {
                            assert(apply_feed_param(fpre, ps[i as int]) is None);
                            lemma_fold_feed_none(ps, default_filter(), i + 1);
                        }
                        return Result::Err(ArticleError::Validation);
                    },
                }
            }
        } else {
            if is_offset || is_limit {
                proof {
                    assert(apply_feed_param(fpre, ps[i as int]) is None);
                    lemma_fold_feed_none(ps, default_filter(), i + 1);
                }
                return Result::Err(ArticleError::Validation);
            }
        }
        proof {
            assert(fold_feed_params(ps.take(i + 1), default_filter()) matches Option::Some(fs)
                && fs.offset == offset as int && fs.limit == limit as int);
        }
        i += 1;
    }
    proof {
        assert(ps.take(ps.len() as int) =~= ps);
    }
    Result::Ok((offset, limit))
}

} // verus!
