//! Markets as the Gamma API lists them.

use vstd::prelude::*;

use crate::text;

verus! {

/// A market as the Gamma API gives it. Lists come as texts that hold JSON.
#[derive(Debug, Clone)]
pub struct GammaMarket {
    pub condition_id: Option<String>,
    pub question: Option<String>,
    pub slug: Option<String>,
    /// Outcome names: a JSON array of strings.
    pub outcomes: Option<String>,
    /// Outcome prices: a JSON array of strings.
    pub outcome_prices: Option<String>,
    /// Outcome tokens: a JSON array of strings.
    pub clob_token_ids: Option<String>,
    pub volume: Option<String>,
    pub liquidity: Option<String>,
    pub start_date: Option<String>,
    pub end_date: Option<String>,
    pub active: Option<bool>,
    pub closed: Option<bool>,
    pub tags: Option<Vec<String>>,
}

/// The strings of a text that is a JSON array of strings.
pub uninterp spec fn json_strings(text: Seq<char>) -> Option<Seq<Seq<char>>>;

/// `serde_json::from_str` into a list of strings: the strings where the text is
/// a JSON array of strings and nothing else, `None` for any other text. Reads
/// nothing but the text.
#[verifier::external_body]
pub(crate) fn parse_json_strings(s: &str) -> (r: Option<Vec<String>>)
    ensures
        json_strings(s@) == (match r {
            Some(v) => Some(text::views(v@)),
            None => None,
        }),
{
    serde_json::from_str::<Vec<String>>(s).ok()
}

/// The strings that a field lists: none where it is missing or not a list.
pub open spec fn listed(field: Option<String>) -> Seq<Seq<char>> {
    match field {
        Some(s) => match json_strings(s@) {
            Some(list) => list,
            None => Seq::empty(),
        },
        None => Seq::empty(),
    }
}

/// The list that was read, or an empty one where none was.
pub fn list_or_empty(read: Option<Vec<String>>) -> (r: Vec<String>)
    ensures
        match read {
            Some(list) => r == list,
            None => r@ == Seq::<String>::empty(),
        },
{
    match read {
        Some(list) => list,
        None => Vec::new(),
    }
}

fn read_list(field: &Option<String>) -> (r: Vec<String>)
    ensures
        text::views(r@) == listed(*field),
{
    let read: Option<Vec<String>> = match field {
        Some(s) => parse_json_strings(s.as_str()),
        None => None,
    };
    let list: Vec<String> = list_or_empty(read);
    assert(list@.len() == 0 ==> text::views(list@) =~= Seq::empty());
    list
}

impl GammaMarket {
    /// The outcome names.
    pub fn parse_outcomes(&self) -> (r: Vec<String>)
        ensures
            text::views(r@) == listed(self.outcomes),
    {
        read_list(&self.outcomes)
    }

    /// The outcome tokens.
    pub fn parse_token_ids(&self) -> (r: Vec<String>)
        ensures
            text::views(r@) == listed(self.clob_token_ids),
    {
        read_list(&self.clob_token_ids)
    }

    /// How many outcomes there are.
    pub fn outcome_count(&self) -> (r: usize)
        ensures
            r == listed(self.outcomes).len(),
    {
        let names: Vec<String> = self.parse_outcomes();
        assert(text::views(names@).len() == names.len());
        names.len()
    }
}

/// A field lists what its text does; one that is missing, or no list, lists
/// nothing.
pub proof fn law_fields_list_their_strings(s: String)
    ensures
        listed(None).len() == 0,
        json_strings(s@) is None ==> listed(Some(s)).len() == 0,
        json_strings(s@) is Some ==> listed(Some(s)) == json_strings(s@).unwrap(),
{
}

} // verus!
