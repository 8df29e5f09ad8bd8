//! Language classification for tokenization.
//!
//! An [`Algorithm`] names the language (or stemming algorithm) a text should
//! be tokenized with.  Languages fall into three families: those handled by a
//! Snowball stemmer, the CJK languages, and the Southeast Asian languages.

use vstd::prelude::*;

verus! {

/// The language or stemming algorithm used to tokenize a text.
#[derive(Debug, Clone, Copy, PartialEq, Eq, Structural, PartialOrd, Ord, Hash, Default)]
pub enum Algorithm {
    /// No particular language; no tokenizer backend exists for it.
    #[default]
    Unspecified,
    Arabic,
    Armenian,
    Basque,
    Catalan,
    Danish,
    Dutch,
    DutchPorter,
    English,
    Esperanto,
    Estonian,
    Finnish,
    French,
    German,
    Greek,
    Hindi,
    Hungarian,
    Indonesian,
    Irish,
    Italian,
    Lithuanian,
    Lovins,
    Nepali,
    Norwegian,
    Porter,
    Portuguese,
    Romanian,
    Russian,
    Serbian,
    Spanish,
    Swedish,
    Tamil,
    Turkish,
    Yiddish,
    Japanese,
    Chinese,
    Korean,
    Thai,
    Burmese,
    Lao,
    Khmer,
}

impl Algorithm {
    /// Whether this language is one of the CJK languages, which are
    /// tokenized by dictionary- or model-based word segmentation.
    pub open spec fn spec_is_cjk(self) -> bool {
        self == Algorithm::Japanese || self == Algorithm::Chinese || self == Algorithm::Korean
    }

    /// Whether this language is one of the Southeast Asian languages,
    /// which are tokenized by a statistical word-boundary model.
    pub open spec fn spec_is_southeast_asian(self) -> bool {
        self == Algorithm::Thai || self == Algorithm::Burmese || self == Algorithm::Lao
            || self == Algorithm::Khmer
    }

    /// Whether this language is stemmed by a Snowball algorithm
    /// (every language that is neither CJK nor Southeast Asian).
    pub open spec fn spec_is_snowball(self) -> bool {
        !self.spec_is_cjk() && !self.spec_is_southeast_asian()
    }

    #[verifier::when_used_as_spec(spec_is_cjk)]
    pub fn is_cjk(self) -> (r: bool)
        ensures
            r == self.spec_is_cjk(),
    {
        matches!(self, Algorithm::Japanese | Algorithm::Chinese | Algorithm::Korean)
    }

    #[verifier::when_used_as_spec(spec_is_southeast_asian)]
    pub fn is_southeast_asian(self) -> (r: bool)
        ensures
            r == self.spec_is_southeast_asian(),
    {
        matches!(self, Algorithm::Thai | Algorithm::Burmese | Algorithm::Lao | Algorithm::Khmer)
    }

    #[verifier::when_used_as_spec(spec_is_snowball)]
    pub fn is_snowball(self) -> (r: bool)
        ensures
            r == self.spec_is_snowball(),
    {
        !self.is_cjk() && !self.is_southeast_asian()
    }
}

/// The failure conditions of tokenization.
#[derive(Debug, Clone, Copy, PartialEq, Eq, Structural)]
pub enum Error {
    /// No tokenizer backend exists for the requested language.
    NoTokenizer(Algorithm),
}


impl Algorithm {
    /// The signed code under which each language travels on the wire:
    /// `-1` for [`Algorithm::Unspecified`], then the languages in
    /// declaration order.
    pub open spec fn spec_code(self) -> int {
        match self {
            Algorithm::Unspecified => -1,
            Algorithm::Arabic => 0,
            Algorithm::Armenian => 1,
            Algorithm::Basque => 2,
            Algorithm::Catalan => 3,
            Algorithm::Danish => 4,
            Algorithm::Dutch => 5,
            Algorithm::DutchPorter => 6,
            Algorithm::English => 7,
            Algorithm::Esperanto => 8,
            Algorithm::Estonian => 9,
            Algorithm::Finnish => 10,
            Algorithm::French => 11,
            Algorithm::German => 12,
            Algorithm::Greek => 13,
            Algorithm::Hindi => 14,
            Algorithm::Hungarian => 15,
            Algorithm::Indonesian => 16,
            Algorithm::Irish => 17,
            Algorithm::Italian => 18,
            Algorithm::Lithuanian => 19,
            Algorithm::Lovins => 20,
            Algorithm::Nepali => 21,
            Algorithm::Norwegian => 22,
            Algorithm::Porter => 23,
            Algorithm::Portuguese => 24,
            Algorithm::Romanian => 25,
            Algorithm::Russian => 26,
            Algorithm::Serbian => 27,
            Algorithm::Spanish => 28,
            Algorithm::Swedish => 29,
            Algorithm::Tamil => 30,
            Algorithm::Turkish => 31,
            Algorithm::Yiddish => 32,
            Algorithm::Japanese => 33,
            Algorithm::Chinese => 34,
            Algorithm::Korean => 35,
            Algorithm::Thai => 36,
            Algorithm::Burmese => 37,
            Algorithm::Lao => 38,
            Algorithm::Khmer => 39,
        }
    }

    /// The language a wire code names; every code outside the assigned
    /// range falls back to [`Algorithm::Unspecified`].
    pub open spec fn spec_from_code(code: int) -> Algorithm {
        if code == 0 {
            Algorithm::Arabic
        } else if code == 1 {
            Algorithm::Armenian
        } else if code == 2 {
            Algorithm::Basque
        } else if code == 3 {
            Algorithm::Catalan
        } else if code == 4 {
            Algorithm::Danish
        } else if code == 5 {
            Algorithm::Dutch
        } else if code == 6 {
            Algorithm::DutchPorter
        } else if code == 7 {
            Algorithm::English
        } else if code == 8 {
            Algorithm::Esperanto
        } else if code == 9 {
            Algorithm::Estonian
        } else if code == 10 {
            Algorithm::Finnish
        } else if code == 11 {
            Algorithm::French
        } else if code == 12 {
            Algorithm::German
        } else if code == 13 {
            Algorithm::Greek
        } else if code == 14 {
            Algorithm::Hindi
        } else if code == 15 {
            Algorithm::Hungarian
        } else if code == 16 {
            Algorithm::Indonesian
        } else if code == 17 {
            Algorithm::Irish
        } else if code == 18 {
            Algorithm::Italian
        } else if code == 19 {
            Algorithm::Lithuanian
        } else if code == 20 {
            Algorithm::Lovins
        } else if code == 21 {
            Algorithm::Nepali
        } else if code == 22 {
            Algorithm::Norwegian
        } else if code == 23 {
            Algorithm::Porter
        } else if code == 24 {
            Algorithm::Portuguese
        } else if code == 25 {
            Algorithm::Romanian
        } else if code == 26 {
            Algorithm::Russian
        } else if code == 27 {
            Algorithm::Serbian
        } else if code == 28 {
            Algorithm::Spanish
        } else if code == 29 {
            Algorithm::Swedish
        } else if code == 30 {
            Algorithm::Tamil
        } else if code == 31 {
            Algorithm::Turkish
        } else if code == 32 {
            Algorithm::Yiddish
        } else if code == 33 {
            Algorithm::Japanese
        } else if code == 34 {
            Algorithm::Chinese
        } else if code == 35 {
            Algorithm::Korean
        } else if code == 36 {
            Algorithm::Thai
        } else if code == 37 {
            Algorithm::Burmese
        } else if code == 38 {
            Algorithm::Lao
        } else if code == 39 {
            Algorithm::Khmer
        } else {
            Algorithm::Unspecified
        }
    }

    /// The wire code of this language.
    pub fn code(self) -> (r: i8)
        ensures
            r == self.spec_code(),
            -1 <= r <= 39,
    {
        match self {
            Algorithm::Unspecified => -1,
            Algorithm::Arabic => 0,
            Algorithm::Armenian => 1,
            Algorithm::Basque => 2,
            Algorithm::Catalan => 3,
            Algorithm::Danish => 4,
            Algorithm::Dutch => 5,
            Algorithm::DutchPorter => 6,
            Algorithm::English => 7,
            Algorithm::Esperanto => 8,
            Algorithm::Estonian => 9,
            Algorithm::Finnish => 10,
            Algorithm::French => 11,
            Algorithm::German => 12,
            Algorithm::Greek => 13,
            Algorithm::Hindi => 14,
            Algorithm::Hungarian => 15,
            Algorithm::Indonesian => 16,
            Algorithm::Irish => 17,
            Algorithm::Italian => 18,
            Algorithm::Lithuanian => 19,
            Algorithm::Lovins => 20,
            Algorithm::Nepali => 21,
            Algorithm::Norwegian => 22,
            Algorithm::Porter => 23,
            Algorithm::Portuguese => 24,
            Algorithm::Romanian => 25,
            Algorithm::Russian => 26,
            Algorithm::Serbian => 27,
            Algorithm::Spanish => 28,
            Algorithm::Swedish => 29,
            Algorithm::Tamil => 30,
            Algorithm::Turkish => 31,
            Algorithm::Yiddish => 32,
            Algorithm::Japanese => 33,
            Algorithm::Chinese => 34,
            Algorithm::Korean => 35,
            Algorithm::Thai => 36,
            Algorithm::Burmese => 37,
            Algorithm::Lao => 38,
            Algorithm::Khmer => 39,
        }
    }

    /// The language a wire code names.
    pub fn from_code(code: i8) -> (r: Algorithm)
        ensures
            r == Algorithm::spec_from_code(code as int),
    {
        match code {
            0 => Algorithm::Arabic,
            1 => Algorithm::Armenian,
            2 => Algorithm::Basque,
            3 => Algorithm::Catalan,
            4 => Algorithm::Danish,
            5 => Algorithm::Dutch,
            6 => Algorithm::DutchPorter,
            7 => Algorithm::English,
            8 => Algorithm::Esperanto,
            9 => Algorithm::Estonian,
            10 => Algorithm::Finnish,
            11 => Algorithm::French,
            12 => Algorithm::German,
            13 => Algorithm::Greek,
            14 => Algorithm::Hindi,
            15 => Algorithm::Hungarian,
            16 => Algorithm::Indonesian,
            17 => Algorithm::Irish,
            18 => Algorithm::Italian,
            19 => Algorithm::Lithuanian,
            20 => Algorithm::Lovins,
            21 => Algorithm::Nepali,
            22 => Algorithm::Norwegian,
            23 => Algorithm::Porter,
            24 => Algorithm::Portuguese,
            25 => Algorithm::Romanian,
            26 => Algorithm::Russian,
            27 => Algorithm::Serbian,
            28 => Algorithm::Spanish,
            29 => Algorithm::Swedish,
            30 => Algorithm::Tamil,
            31 => Algorithm::Turkish,
            32 => Algorithm::Yiddish,
            33 => Algorithm::Japanese,
            34 => Algorithm::Chinese,
            35 => Algorithm::Korean,
            36 => Algorithm::Thai,
            37 => Algorithm::Burmese,
            38 => Algorithm::Lao,
            39 => Algorithm::Khmer,
            _ => Algorithm::Unspecified,
        }
    }
}

/// Wire codes round-trip: decoding a language's code yields the language.
pub proof fn lemma_code_round_trip(a: Algorithm)
    ensures
        Algorithm::spec_from_code(a.spec_code()) == a,
{
}


} // verus!
