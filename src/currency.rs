use vstd::prelude::*;

use crate::text::{contains_seq, replace_all, replace_str, str_contains, str_equal, trim_text, trim_ws};

verus! {

/// What `str::to_uppercase` makes of a string.
pub uninterp spec fn upper_of(s: Seq<char>) -> Seq<char>;

/// Relies on `str::to_uppercase`: the upper-case form, which depends on the
/// characters alone.
#[verifier::external_body]
fn to_upper(s: &str) -> (r: String)
    ensures
        r@ == upper_of(s@),
{
    s.to_uppercase()
}

/// A currency that prices are quoted in.
#[derive(Clone, Copy, Debug, PartialEq, Eq, Hash, Structural)]
pub enum CurrencyCode {
    KRW,
    USD,
    EUR,
    JPY,
    GBP,
    CNY,
    VND,
    TWD,
}

/// The currencies, in the order in which text is searched for their codes.
pub open spec fn currency_codes() -> Seq<CurrencyCode> {
    seq![
        CurrencyCode::KRW,
        CurrencyCode::USD,
        CurrencyCode::EUR,
        CurrencyCode::JPY,
        CurrencyCode::GBP,
        CurrencyCode::CNY,
        CurrencyCode::VND,
        CurrencyCode::TWD,
    ]
}

/// The three-letter code of a currency.
pub open spec fn code_text(c: CurrencyCode) -> Seq<char> {
    match c {
        CurrencyCode::KRW => "KRW"@,
        CurrencyCode::USD => "USD"@,
        CurrencyCode::EUR => "EUR"@,
        CurrencyCode::JPY => "JPY"@,
        CurrencyCode::GBP => "GBP"@,
        CurrencyCode::CNY => "CNY"@,
        CurrencyCode::VND => "VND"@,
        CurrencyCode::TWD => "TWD"@,
    }
}

/// The currency whose code is exactly `s`.
pub open spec fn currency_of(s: Seq<char>) -> Option<CurrencyCode> {
    if s == "KRW"@ {
        Some(CurrencyCode::KRW)
    } else if s == "USD"@ {
        Some(CurrencyCode::USD)
    } else if s == "EUR"@ {
        Some(CurrencyCode::EUR)
    } else if s == "JPY"@ {
        Some(CurrencyCode::JPY)
    } else if s == "GBP"@ {
        Some(CurrencyCode::GBP)
    } else if s == "CNY"@ {
        Some(CurrencyCode::CNY)
    } else if s == "VND"@ {
        Some(CurrencyCode::VND)
    } else if s == "TWD"@ {
        Some(CurrencyCode::TWD)
    } else {
        None
    }
}

/// The first currency, from position `i` of the search order on, whose code
/// occurs in `s`.
pub open spec fn first_mentioned(s: Seq<char>, i: nat) -> Option<CurrencyCode>
    decreases 8 - i,
{
    if i >= 8 {
        None
    } else if contains_seq(s, code_text(currency_codes()[i as int])) {
        Some(currency_codes()[i as int])
    } else {
        first_mentioned(s, i + 1)
    }
}

/// `s` with the codes from position `i` of the search order on removed, one
/// code after the other.
pub open spec fn without_codes(s: Seq<char>, i: nat) -> Seq<char>
    decreases 8 - i,
{
    if i >= 8 {
        s
    } else {
        without_codes(replace_all(s, code_text(currency_codes()[i as int]), Seq::empty()), i + 1)
    }
}

pub open spec fn currency_desc(c: CurrencyCode) -> Seq<char> {
    match c {
        CurrencyCode::KRW => "대한민국 원"@,
        CurrencyCode::USD => "미국 달러"@,
        CurrencyCode::EUR => "유로"@,
        CurrencyCode::JPY => "일본 엔"@,
        CurrencyCode::GBP => "영국 파운드"@,
        CurrencyCode::CNY => "중국 위안"@,
        CurrencyCode::VND => "베트남 동"@,
        CurrencyCode::TWD => "신대만 달러"@,
    }
}

pub open spec fn currency_sign(c: CurrencyCode) -> Seq<char> {
    match c {
        CurrencyCode::KRW => "₩"@,
        CurrencyCode::USD => "$"@,
        CurrencyCode::EUR => "€"@,
        CurrencyCode::JPY => "¥"@,
        CurrencyCode::GBP => "£"@,
        CurrencyCode::CNY => "¥"@,
        CurrencyCode::VND => "₫"@,
        CurrencyCode::TWD => "NT$"@,
    }
}

impl Default for CurrencyCode {
    fn default() -> (r: CurrencyCode)
        ensures
            r == CurrencyCode::KRW,
    {
        CurrencyCode::KRW
    }
}

impl CurrencyCode {
    /// Every currency, in search order.
    fn all() -> (r: Vec<CurrencyCode>)
        ensures
            r@ == currency_codes(),
    {
        let r = vec![
            CurrencyCode::KRW,
            CurrencyCode::USD,
            CurrencyCode::EUR,
            CurrencyCode::JPY,
            CurrencyCode::GBP,
            CurrencyCode::CNY,
            CurrencyCode::VND,
            CurrencyCode::TWD,
        ];
        proof {
            assert(r@ =~= currency_codes());
        }
        r
    }

    /// The currency's name, in Korean.
    pub fn desc(&self) -> (r: &'static str)
        ensures
            r@ == currency_desc(*self),
    {
        match self {
            CurrencyCode::KRW => "대한민국 원",
            CurrencyCode::USD => "미국 달러",
            CurrencyCode::EUR => "유로",
            CurrencyCode::JPY => "일본 엔",
            CurrencyCode::GBP => "영국 파운드",
            CurrencyCode::CNY => "중국 위안",
            CurrencyCode::VND => "베트남 동",
            CurrencyCode::TWD => "신대만 달러",
        }
    }

    /// The currency's symbol.
    pub fn sign(&self) -> (r: &'static str)
        ensures
            r@ == currency_sign(*self),
    {
        match self {
            CurrencyCode::KRW => "₩",
            CurrencyCode::USD => "$",
            CurrencyCode::EUR => "€",
            CurrencyCode::JPY => "¥",
            CurrencyCode::GBP => "£",
            CurrencyCode::CNY => "¥",
            CurrencyCode::VND => "₫",
            CurrencyCode::TWD => "NT$",
        }
    }

    /// The currency used when none is given.
    pub fn default_currency() -> (r: CurrencyCode)
        ensures
            r == CurrencyCode::KRW,
    {
        CurrencyCode::KRW
    }

    /// The three-letter code.
    pub fn as_str(&self) -> (r: &'static str)
        ensures
            r@ == code_text(*self),
    {
        match self {
            CurrencyCode::KRW => "KRW",
            CurrencyCode::USD => "USD",
            CurrencyCode::EUR => "EUR",
            CurrencyCode::JPY => "JPY",
            CurrencyCode::GBP => "GBP",
            CurrencyCode::CNY => "CNY",
            CurrencyCode::VND => "VND",
            CurrencyCode::TWD => "TWD",
        }
    }

    /// The first currency, in search order, whose code occurs in `text`
    /// exactly as written.
    pub fn first_code_in(text: &str) -> (r: Option<CurrencyCode>)
        ensures
            r == first_mentioned(text@, 0),
    {
        let codes = CurrencyCode::all();
        let mut i: usize = 0;
        while i < codes.len()
            invariant
                codes@ == currency_codes(),
                i <= 8,
                first_mentioned(text@, 0) == first_mentioned(text@, i as nat),
            decreases 8 - i,
        {
            if str_contains(text, codes[i].as_str()) {
                return Some(codes[i]);
            }
            i = i + 1;
        }
        None
    }

    /// The currency whose code is exactly `code`.
    pub fn from_code(code: &str) -> (r: Option<CurrencyCode>)
        ensures
            r == currency_of(code@),
    {
        if str_equal(code, "KRW") {
            Some(CurrencyCode::KRW)
        } else if str_equal(code, "USD") {
            Some(CurrencyCode::USD)
        } else if str_equal(code, "EUR") {
            Some(CurrencyCode::EUR)
        } else if str_equal(code, "JPY") {
            Some(CurrencyCode::JPY)
        } else if str_equal(code, "GBP") {
            Some(CurrencyCode::GBP)
        } else if str_equal(code, "CNY") {
            Some(CurrencyCode::CNY)
        } else if str_equal(code, "VND") {
            Some(CurrencyCode::VND)
        } else if str_equal(code, "TWD") {
            Some(CurrencyCode::TWD)
        } else {
            None
        }
    }

    /// Whether the upper-case form of `value` mentions some currency code.
    pub fn contains(value: &str) -> (r: bool)
        ensures
            r == (first_mentioned(upper_of(value@), 0) is Some),
    {
        let upper = to_upper(value);
        CurrencyCode::first_code_in(upper.as_str()).is_some()
    }

    /// The first currency code, in search order, that the upper-case form of
    /// `value` mentions.
    pub fn extract_currency(value: &str) -> (r: Option<&'static str>)
        ensures
            r is Some <==> first_mentioned(upper_of(value@), 0) is Some,
            r is Some ==> r->0@ == code_text(first_mentioned(upper_of(value@), 0)->0),
    {
        let upper = to_upper(value);
        match CurrencyCode::first_code_in(upper.as_str()) {
            Some(c) => Some(c.as_str()),
            None => None,
        }
    }

    /// `value` with every currency code removed, as written (not folded to
    /// upper case).
    pub fn exclude_currency(value: &str) -> (r: String)
        ensures
            r@ == without_codes(value@, 0),
    {
        let codes = CurrencyCode::all();
        let mut result = value.to_owned();
        let mut i: usize = 0;
        while i < codes.len()
            invariant
                codes@ == currency_codes(),
                i <= 8,
                without_codes(value@, 0) == without_codes(result@, i as nat),
            decreases 8 - i,
        {
            let next = replace_str(result.as_str(), codes[i].as_str(), "");
            proof {
                reveal_strlit("");
                assert(""@ =~= Seq::<char>::empty());
            }
            result = next;
            i = i + 1;
        }
        result
    }

    /// The currency named by `value`, ignoring surrounding whitespace and
    /// letter case.
    pub fn parse(value: &str) -> (r: Option<CurrencyCode>)
        ensures
            r == currency_of(upper_of(trim_ws(value@))),
    {
        let upper = to_upper(trim_text(value));
        CurrencyCode::from_code(upper.as_str())
    }
}

} // verus!
