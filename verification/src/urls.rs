//! URLs, each held as its text.
use reqwest::Url;
use vstd::prelude::*;
use vstd::utf8::encode_utf8;

verus! {

/// The normal form of the URL that `text` is; if it is none, the message that says why.
pub uninterp spec fn parsed_url(text: Seq<char>) -> Result<Seq<char>, Seq<char>>;

/// The URL that the reference `input` stands for relative to the URL `base`; if there is none, the
/// message that says why.
pub uninterp spec fn joined_url(base: Seq<char>, input: Seq<char>) -> Result<Seq<char>, Seq<char>>;

/// The URL `url` with `pairs` added to its query, each form-encoded.
pub uninterp spec fn url_with_pairs(url: Seq<char>, pairs: Seq<(Seq<char>, Seq<char>)>) -> Option<
    Seq<char>,
>;

/// The form-decoded pairs of the query of `url`.
pub uninterp spec fn query_pairs(url: Seq<char>) -> Option<Seq<(Seq<char>, Seq<char>)>>;

/// The characters of each pair.
pub open spec fn pair_texts(pairs: Seq<(String, String)>) -> Seq<(Seq<char>, Seq<char>)> {
    pairs.map_values(|p: (String, String)| (p.0@, p.1@))
}

/// Where `wanted` is first found in `bytes` at `from` or later; their length if it is not there.
pub open spec fn find_byte(bytes: Seq<u8>, wanted: u8, from: int) -> int
    decreases bytes.len() - from,
{
    if from >= bytes.len() || bytes[from] == wanted {
        from
    } else {
        find_byte(bytes, wanted, from + 1)
    }
}

/// The form encoding of `byte` is a single byte: that of a letter, a digit, one of `*-._`, or a
/// space, which becomes a plus sign. Of any other it is three bytes: a percent sign and two digits.
pub open spec fn encodes_to_one(byte: u8) -> bool {
    ||| 'a' as u8 <= byte <= 'z' as u8
    ||| 'A' as u8 <= byte <= 'Z' as u8
    ||| '0' as u8 <= byte <= '9' as u8
    ||| byte == '*' as u8
    ||| byte == '-' as u8
    ||| byte == '.' as u8
    ||| byte == '_' as u8
    ||| byte == ' ' as u8
}

/// How many bytes the form encoding of `bytes` has.
pub open spec fn encoded_length(bytes: Seq<u8>) -> nat
    decreases bytes.len(),
{
    if bytes.len() == 0 {
        0
    } else {
        encoded_length(bytes.drop_last()) + if encodes_to_one(bytes.last()) {
            1nat
        } else {
            3nat
        }
    }
}

/// How many bytes `pairs` have in a query: their form encodings, and for each pair an equals sign and
/// the ampersand before it.
pub open spec fn pairs_length(pairs: Seq<(Seq<char>, Seq<char>)>) -> nat
    decreases pairs.len(),
{
    if pairs.len() == 0 {
        0
    } else {
        pairs_length(pairs.drop_last()) + encoded_length(encode_utf8(pairs.last().0))
            + encoded_length(encode_utf8(pairs.last().1)) + 2
    }
}

/// At least one pair, `pairs`, can be added to the query of `url`: in the result the positions that
/// have to fit into 32 bits do, which are where a new query begins and where a fragment begins, and
/// its length is one that a text can have. There is nothing to fit if `url` is no URL.
///
/// Before the first pair there is no ampersand but the question mark if there is no query yet, and
/// nothing if the query is there and is empty.
pub open spec fn fits_url(url: Seq<char>, pairs: Seq<(Seq<char>, Seq<char>)>) -> bool {
    parsed_url(url) matches Ok(parsed) ==> {
        let bytes = encode_utf8(parsed);
        let question = find_byte(bytes, '?' as u8, 0);
        let before = find_byte(bytes, '#' as u8, 0);
        let length = before + pairs_length(pairs) - if question + 1 == before {
            1int
        } else {
            0int
        };
        &&& question < before || before <= u32::MAX
        &&& before < bytes.len() ==> length <= u32::MAX
        &&& length + (bytes.len() - before) <= isize::MAX
    }
}

/// `Url::parse`: the normal form of the URL that `text` is, or the message of the error. Both depend
/// on the text alone.
#[verifier::external_body]
pub(crate) fn url_parse(text: &str) -> (r: Result<String, String>)
    ensures
        match r {
            Ok(url) => parsed_url(text@) == Ok::<Seq<char>, Seq<char>>(url@),
            Err(message) => parsed_url(text@) == Err::<Seq<char>, Seq<char>>(message@),
        },
{
    Url::parse(text).map(|url| url.as_str().to_owned()).map_err(|error| error.to_string())
}

/// `Url::join` on the URL that `base` is: what `input` stands for relative to it, or the message of
/// the error. Both depend on the two texts alone.
#[verifier::external_body]
pub(crate) fn url_join(base: &str, input: &str) -> (r: Result<String, String>)
    ensures
        match r {
            Ok(url) => joined_url(base@, input@) == Ok::<Seq<char>, Seq<char>>(url@),
            Err(message) => joined_url(base@, input@) == Err::<Seq<char>, Seq<char>>(message@),
        },
{
    let joined = Url::parse(base).and_then(|url| url.join(input));
    joined.map(|url| url.as_str().to_owned()).map_err(|error| error.to_string())
}

/// `Serializer::extend_pairs` on the query of the URL that `url` is: the URL with `pairs` added. The
/// result depends on the texts alone. There is none exactly if `url` is no URL; the message is then
/// that of `Url::parse`. It panics where a position that is kept does not fit into 32 bits or the
/// text gets too long, which is left out.
#[verifier::external_body]
pub(crate) fn url_extend_pairs(url: &str, pairs: &Vec<(String, String)>) -> (r: Result<
    String,
    String,
>)
    requires
        pairs@.len() > 0,
        fits_url(url@, pair_texts(pairs@)),
    ensures
        match r {
            Ok(extended) => {
                &&& parsed_url(url@) is Ok
                &&& url_with_pairs(url@, pair_texts(pairs@)) == Some(extended@)
            },
            Err(message) => {
                &&& parsed_url(url@) == Err::<Seq<char>, Seq<char>>(message@)
                &&& url_with_pairs(url@, pair_texts(pairs@)) is None
            },
        },
{
    let mut url = Url::parse(url).map_err(|error| error.to_string())?;
    url.query_pairs_mut().extend_pairs(pairs);
    Ok(url.as_str().to_owned())
}

/// `Url::query_pairs` on the URL that `url` is: the pairs of its query, form-decoded. The result
/// depends on the text alone. There is none exactly if `url` is no URL; the message is then that of
/// `Url::parse`.
#[verifier::external_body]
pub(crate) fn url_query_pairs(url: &str) -> (r: Result<Vec<(String, String)>, String>)
    ensures
        match r {
            Ok(pairs) => {
                parsed_url(url@) is Ok && query_pairs(url@) == Some(pair_texts(pairs@))
            },
            Err(message) => {
                &&& parsed_url(url@) == Err::<Seq<char>, Seq<char>>(message@)
                &&& query_pairs(url@) is None
            },
        },
{
    let url = Url::parse(url).map_err(|error| error.to_string())?;
    Ok(url.query_pairs().into_owned().collect())
}

proof fn lemma_pairs_length_of_prefix(pairs: Seq<(Seq<char>, Seq<char>)>, n: int)
    requires
        0 <= n <= pairs.len(),
    ensures
        pairs_length(pairs.take(n)) <= pairs_length(pairs),
    decreases pairs.len(),
{
    if n == pairs.len() {
        assert(pairs.take(n) =~= pairs);
    } else {
        lemma_pairs_length_of_prefix(pairs.drop_last(), n);
        assert(pairs.drop_last().take(n) =~= pairs.take(n));
    }
}

fn position_of_byte(bytes: &[u8], wanted: u8) -> (r: usize)
    ensures
        r == find_byte(bytes@, wanted, 0),
        r <= bytes@.len(),
{
    let mut i: usize = 0;
    while i < bytes.len() && bytes[i] != wanted
        invariant
            i <= bytes.len(),
            find_byte(bytes@, wanted, i as int) == find_byte(bytes@, wanted, 0),
        decreases bytes.len() - i,
    {
        i = i + 1;
    }
    i
}

fn length_encoded(bytes: &[u8]) -> (r: u128)
    ensures
        r == encoded_length(bytes@),
        r <= 3 * bytes@.len(),
        bytes@.len() <= usize::MAX,
{
    let mut length: u128 = 0;
    let mut i: usize = 0;
    while i < bytes.len()
        invariant
            i <= bytes.len(),
            length == encoded_length(bytes@.take(i as int)),
            length <= 3 * i,
        decreases bytes.len() - i,
    {
        let byte: u8 = bytes[i];
        let alphanumeric = (byte >= 'a' as u8 && byte <= 'z' as u8) || (byte >= 'A' as u8 && byte
            <= 'Z' as u8) || (byte >= '0' as u8 && byte <= '9' as u8);
        let one = alphanumeric || byte == '*' as u8 || byte == '-' as u8 || byte == '.' as u8
            || byte == '_' as u8 || byte == ' ' as u8;
        proof {
            assert(bytes@.take(i + 1).drop_last() =~= bytes@.take(i as int));
            assert(one == encodes_to_one(byte));
        }
        length = length + if one {
            1
        } else {
            3
        };
        i = i + 1;
    }
    proof {
        assert(bytes@.take(bytes@.len() as int) =~= bytes@);
    }
    length
}

/// Whether `pairs`, of which there is at least one, can be added to the query of `url`.
pub fn extension_fits(url: &str, pairs: &Vec<(String, String)>) -> (r: bool)
    ensures
        r == fits_url(url@, pair_texts(pairs@)),
{
    let parsed = match url_parse(url) {
        Ok(parsed) => parsed,
        Err(_) => {
            return true;
        },
    };
    let bytes = parsed.as_str().as_bytes();
    let question: usize = position_of_byte(bytes, '?' as u8);
    let before: usize = position_of_byte(bytes, '#' as u8);
    let rest: u128 = (bytes.len() - before) as u128;
    let omitted: u128 = if question < before && question + 1 == before {
        1
    } else {
        0
    };
    let ghost all = pair_texts(pairs@);
    let base: u128 = before as u128 - omitted;
    let limit: u128 = isize::MAX as u128;
    let mut length: u128 = base;
    let mut i: usize = 0;
    while i < pairs.len()
        invariant
            i <= pairs.len(),
            all == pair_texts(pairs@),
            limit == isize::MAX,
            rest <= usize::MAX,
            base <= usize::MAX,
            length <= usize::MAX,
            length == base + pairs_length(all.take(i as int)),
            parsed_url(url@) == Ok::<Seq<char>, Seq<char>>(parsed@),
            bytes@ == encode_utf8(parsed@),
            question == find_byte(bytes@, '?' as u8, 0),
            before == find_byte(bytes@, '#' as u8, 0),
            base == before - (if question + 1 == before {
                1int
            } else {
                0int
            }),
            rest == bytes@.len() - before,
        decreases pairs.len() - i,
    {
        let key: u128 = length_encoded(pairs[i].0.as_str().as_bytes());
        let value: u128 = length_encoded(pairs[i].1.as_str().as_bytes());
        length = length + key + value + 2;
        proof {
            assert(all.take(i + 1).drop_last() =~= all.take(i as int));
            assert(all.take(i + 1).last() == (pairs@[i as int].0@, pairs@[i as int].1@));
            lemma_pairs_length_of_prefix(all, i + 1);
        }
        if length + rest > limit {
            return false;
        }
        i = i + 1;
    }
    proof {
        assert(all.take(all.len() as int) =~= all);
    }
    let new_query_fits = question < before || before as u128 <= u32::MAX as u128;
    let fragment_fits = before == bytes.len() || length <= u32::MAX as u128;
    new_query_fits && fragment_fits && length + rest <= limit
}

proof fn lemma_pairs_length_bound(pairs: Seq<(Seq<char>, Seq<char>)>)
    ensures
        pairs_length(pairs) <= pairs.fold_left(
            0int,
            |sum: int, p: (Seq<char>, Seq<char>)|
                sum + 3 * encode_utf8(p.0).len() + 3 * encode_utf8(p.1).len() + 2,
        ),
    decreases pairs.len(),
{
    if pairs.len() > 0 {
        lemma_pairs_length_bound(pairs.drop_last());
        lemma_encoded_length_bound(encode_utf8(pairs.last().0));
        lemma_encoded_length_bound(encode_utf8(pairs.last().1));
    }
}

proof fn lemma_encoded_length_bound(bytes: Seq<u8>)
    ensures
        bytes.len() <= encoded_length(bytes) <= 3 * bytes.len(),
    decreases bytes.len(),
{
    if bytes.len() > 0 {
        lemma_encoded_length_bound(bytes.drop_last());
    }
}

proof fn lemma_find_byte(bytes: Seq<u8>, wanted: u8, from: int)
    requires
        0 <= from <= bytes.len(),
    ensures
        from <= find_byte(bytes, wanted, from) <= bytes.len(),
        find_byte(bytes, wanted, from) < bytes.len() ==> bytes[find_byte(bytes, wanted, from)]
            == wanted,
        forall|k: int| from <= k < find_byte(bytes, wanted, from) ==> #[trigger] bytes[k] != wanted,
    decreases bytes.len() - from,
{
    if from < bytes.len() && bytes[from] != wanted {
        lemma_find_byte(bytes, wanted, from + 1);
    }
}

/// Pairs fit whenever the URL, three bytes for each byte of theirs and two more for each of them come to
/// no more than 31 bits can count, so that no ordinary URL is refused. What is no URL is not refused
/// for its length either.
pub proof fn law_ordinary_urls_are_not_too_long(
    url: &str,
    pairs: &Vec<(String, String)>,
    r: bool,
    parsed: Seq<char>,
)
    requires
        call_ensures(extension_fits, (url, pairs), r),
    ensures
        parsed_url(url@) is Err ==> r,
        parsed_url(url@) == Ok::<Seq<char>, Seq<char>>(parsed) && encode_utf8(parsed).len()
            + pairs@.fold_left(
            0int,
            |sum: int, p: (String, String)|
                sum + 3 * encode_utf8(p.0@).len() + 3 * encode_utf8(p.1@).len() + 2,
        ) <= i32::MAX ==> r,
{
    let all = pair_texts(pairs@);
    lemma_pairs_length_bound(all);
    lemma_sum_of_texts(pairs@);
    let bytes = encode_utf8(parsed);
    lemma_find_byte(bytes, '#' as u8, 0);
    lemma_find_byte(bytes, '?' as u8, 0);
}

proof fn lemma_sum_of_texts(pairs: Seq<(String, String)>)
    ensures
        pair_texts(pairs).fold_left(
            0int,
            |sum: int, p: (Seq<char>, Seq<char>)|
                sum + 3 * encode_utf8(p.0).len() + 3 * encode_utf8(p.1).len() + 2,
        ) == pairs.fold_left(
            0int,
            |sum: int, p: (String, String)|
                sum + 3 * encode_utf8(p.0@).len() + 3 * encode_utf8(p.1@).len() + 2,
        ),
    decreases pairs.len(),
{
    if pairs.len() > 0 {
        lemma_sum_of_texts(pairs.drop_last());
        assert(pair_texts(pairs).drop_last() =~= pair_texts(pairs.drop_last()));
        assert(pair_texts(pairs).last() == (pairs.last().0@, pairs.last().1@));
    }
}

/// Pairs do not fit if the URL has no query and the part of it before any fragment is too long for 32
/// bits, or if it has a fragment and gets too long for 32 bits before that, with at least one byte for
/// each byte of the pairs.
pub proof fn law_positions_have_to_fit(
    url: &str,
    pairs: &Vec<(String, String)>,
    r: bool,
    parsed: Seq<char>,
    fragment: int,
)
    requires
        call_ensures(extension_fits, (url, pairs), r),
        parsed_url(url@) == Ok::<Seq<char>, Seq<char>>(parsed),
        0 <= fragment <= encode_utf8(parsed).len(),
        fragment < encode_utf8(parsed).len() ==> encode_utf8(parsed)[fragment] == '#' as u8,
        forall|k: int| 0 <= k < fragment ==> #[trigger] encode_utf8(parsed)[k] != '#' as u8,
        r,
    ensures
        (forall|k: int| 0 <= k < fragment ==> #[trigger] encode_utf8(parsed)[k] != '?' as u8)
            ==> fragment <= u32::MAX,
        fragment < encode_utf8(parsed).len() && pairs@.len() > 0 ==> fragment + 2 * pairs@.len() - 1
            <= u32::MAX,
{
    let bytes = encode_utf8(parsed);
    let before = find_byte(bytes, '#' as u8, 0);
    let question = find_byte(bytes, '?' as u8, 0);
    lemma_find_byte(bytes, '#' as u8, 0);
    lemma_find_byte(bytes, '?' as u8, 0);
    assert(before == fragment) by {
        if before < fragment {
            assert(bytes[before] != '#' as u8);
        } else if fragment < before {
            assert(bytes[fragment] != '#' as u8);
        }
    }
    if forall|k: int| 0 <= k < fragment ==> #[trigger] encode_utf8(parsed)[k] != '?' as u8 {
        if question < before {
            assert(bytes[question] != '?' as u8);
        }
    }
    lemma_pairs_have_signs(pair_texts(pairs@));
}

proof fn lemma_pairs_have_signs(pairs: Seq<(Seq<char>, Seq<char>)>)
    ensures
        pairs_length(pairs) >= 2 * pairs.len(),
    decreases pairs.len(),
{
    if pairs.len() > 0 {
        lemma_pairs_have_signs(pairs.drop_last());
    }
}

/// In a form encoding a letter, a digit, `*`, `-`, `.`, `_` or a space takes one byte, and any other
/// byte takes three.
pub proof fn law_encoded_bytes_take_one_or_three(bytes: Seq<u8>)
    ensures
        encoded_length(bytes) == bytes.fold_left(
            0int,
            |sum: int, b: u8|
                sum + if 48 <= b <= 57 || 65 <= b <= 90 || 97 <= b <= 122 || b == 42 || b == 45 || b
                    == 46 || b == 95 || b == 32 {
                    1int
                } else {
                    3int
                },
        ),
    decreases bytes.len(),
{
    if bytes.len() > 0 {
        law_encoded_bytes_take_one_or_three(bytes.drop_last());
    }
}

/// Each pair of a query takes the form encodings of its two texts, and two bytes besides.
pub proof fn law_pairs_take_their_encodings(pairs: Seq<(Seq<char>, Seq<char>)>)
    ensures
        pairs_length(pairs) == pairs.fold_left(
            0int,
            |sum: int, p: (Seq<char>, Seq<char>)|
                sum + encoded_length(encode_utf8(p.0)) + encoded_length(encode_utf8(p.1)) + 2,
        ),
    decreases pairs.len(),
{
    if pairs.len() > 0 {
        law_pairs_take_their_encodings(pairs.drop_last());
    }
}

/// Pairs fit exactly if the positions that are kept fit into 32 bits and the text does not get too long.
/// These are where a new query begins, and where a fragment begins after the pairs were put before it. An
/// empty query needs no ampersand before the first pair.
pub proof fn law_extended_url_is_measured_exactly(
    url: &str,
    pairs: &Vec<(String, String)>,
    r: bool,
    parsed: Seq<char>,
    question: int,
    fragment: int,
)
    requires
        call_ensures(extension_fits, (url, pairs), r),
        parsed_url(url@) == Ok::<Seq<char>, Seq<char>>(parsed),
        0 <= fragment <= encode_utf8(parsed).len(),
        fragment < encode_utf8(parsed).len() ==> encode_utf8(parsed)[fragment] == '#' as u8,
        forall|k: int| 0 <= k < fragment ==> #[trigger] encode_utf8(parsed)[k] != '#' as u8,
        0 <= question <= encode_utf8(parsed).len(),
        question < encode_utf8(parsed).len() ==> encode_utf8(parsed)[question] == '?' as u8,
        forall|k: int| 0 <= k < question ==> #[trigger] encode_utf8(parsed)[k] != '?' as u8,
    ensures
        ({
            let added = pairs_length(Seq::new(pairs@.len(), |i: int| (pairs@[i].0@, pairs@[i].1@)))
                - if question + 1 == fragment {
                1int
            } else {
                0int
            };
            let length = encode_utf8(parsed).len();
            r <==> {
                &&& fragment <= question ==> fragment <= u32::MAX
                &&& fragment < length ==> fragment + added <= u32::MAX
                &&& length + added <= isize::MAX
            }
        }),
{
    let bytes = encode_utf8(parsed);
    lemma_first_byte(bytes, '#' as u8, fragment);
    lemma_first_byte(bytes, '?' as u8, question);
    assert(pair_texts(pairs@) =~= Seq::new(pairs@.len(), |i: int| (pairs@[i].0@, pairs@[i].1@)));
}

proof fn lemma_first_byte(bytes: Seq<u8>, wanted: u8, at: int)
    requires
        0 <= at <= bytes.len(),
        at < bytes.len() ==> bytes[at] == wanted,
        forall|k: int| 0 <= k < at ==> #[trigger] bytes[k] != wanted,
    ensures
        find_byte(bytes, wanted, 0) == at,
{
    lemma_find_byte(bytes, wanted, 0);
    let found = find_byte(bytes, wanted, 0);
    if found < at {
        assert(bytes[found] != wanted);
    } else if at < found {
        assert(bytes[at] != wanted);
    }
}

} // verus!
