//! The tools that an agent can call, and which of them a model is shown.

use vstd::prelude::*;
use crate::agent::provider::ToolSpec;
use crate::agent::provider::ToolSpecView;
use crate::json::Json;
use crate::json::JsonView;
use crate::sort;
use crate::sort::Rank;
use crate::sorted_map;
use crate::sorted_map::SortedMap;
use crate::text;

verus! {

/// What a tool gave back.
pub struct ToolOutput {
    pub content: Json,
    pub is_error: bool,
}

impl ToolOutput {
    /// A success.
    pub fn ok(content: Json) -> (output: Self)
        ensures
            output.content@ == content@,
            !output.is_error,
    {
        ToolOutput { content, is_error: false }
    }

    /// A failure.
    pub fn err(content: String) -> (output: Self)
        ensures
            output.content@ == JsonView::Text(content@),
            output.is_error,
    {
        ToolOutput { content: Json::Text(content), is_error: true }
    }
}

// ---------------------------------------------------------------------------
// Relevance
// ---------------------------------------------------------------------------

/// Words that say nothing about which tool is meant.
pub open spec fn stopwords() -> Seq<&'static str> {
    seq![
        "the", "a", "an", "to", "of", "in", "on", "for", "and", "or", "is", "are",
        "what", "how", "do", "does", "can", "you", "i", "me", "my", "please", "use",
        "with", "this", "that", "it", "be", "get", "want", "need", "from", "at",
    ]
}

/// Whether a word says nothing.
pub open spec fn is_stopword(word: Seq<char>) -> bool {
    exists|i: int| 0 <= i < stopwords().len() && (#[trigger] stopwords()[i])@ == word
}

/// The maximal runs of ASCII letters and digits.
pub open spec fn runs(text: Seq<char>) -> Seq<Seq<char>>
    decreases text.len(),
{
    if text.len() == 0 {
        Seq::empty()
    } else {
        let before = runs(text.drop_last());
        if !text::alnum(text.last()) {
            before
        } else if text.len() >= 2 && text::alnum(text[text.len() - 2]) {
            before.drop_last().push(before.last().push(text.last()))
        } else {
            before.push(seq![text.last()])
        }
    }
}

/// The runs in lower case that have two characters or more and say something.
pub open spec fn telling(runs: Seq<Seq<char>>) -> Seq<Seq<char>>
    decreases runs.len(),
{
    if runs.len() == 0 {
        Seq::empty()
    } else {
        let word = text::ascii_lower(runs.last());
        if word.len() >= 2 && !is_stopword(word) {
            telling(runs.drop_last()).push(word)
        } else {
            telling(runs.drop_last())
        }
    }
}

/// The tokens of a text.
pub open spec fn tokens_of(text: Seq<char>) -> Seq<Seq<char>> {
    telling(runs(text))
}

/// What one token of the query adds: a token of the name counts five, a part of
/// the name three, a token of the description two, a part of it one.
pub open spec fn token_score(token: Seq<char>, name: Seq<char>, desc: Seq<char>) -> nat {
    let in_name: nat = if tokens_of(name).contains(token) {
        5
    } else if text::occurs(text::ascii_lower(name), token) {
        3
    } else {
        0
    };
    let in_desc: nat = if tokens_of(desc).contains(token) {
        2
    } else if text::occurs(text::ascii_lower(desc), token) {
        1
    } else {
        0
    };
    in_name + in_desc
}

/// How well a tool fits the tokens of a query.
pub open spec fn score(tokens: Seq<Seq<char>>, name: Seq<char>, desc: Seq<char>) -> nat
    decreases tokens.len(),
{
    if tokens.len() == 0 {
        0
    } else {
        score(tokens.drop_last(), name, desc) + token_score(tokens.last(), name, desc)
    }
}

/// No token adds more than seven.
pub proof fn lemma_score_bound(tokens: Seq<Seq<char>>, name: Seq<char>, desc: Seq<char>)
    ensures
        score(tokens, name, desc) <= 7 * tokens.len(),
    decreases tokens.len(),
{
    if tokens.len() > 0 {
        lemma_score_bound(tokens.drop_last(), name, desc);
    }
}

fn says_nothing(word: &str) -> (r: bool)
    ensures
        r == is_stopword(word@),
{
    let list: Vec<&'static str> = vec![
        "the", "a", "an", "to", "of", "in", "on", "for", "and", "or", "is", "are",
        "what", "how", "do", "does", "can", "you", "i", "me", "my", "please", "use",
        "with", "this", "that", "it", "be", "get", "want", "need", "from", "at",
    ];
    assert(list@ =~= stopwords());
    let mut i: usize = 0;
    while i < list.len()
        invariant
            i <= list.len(),
            list@ == stopwords(),
            forall|k: int| 0 <= k < i ==> (#[trigger] stopwords()[k])@ != word@,
        decreases list.len() - i,
    {
        if text::same_text(list[i], word) {
            assert(stopwords()[i as int]@ == word@);
            return true;
        }
        i += 1;
    }
    false
}

fn split_runs(text: &str) -> (parts: Vec<String>)
    ensures
        text::views(parts@) == runs(text@),
{
    let chars = text::chars_of(text);
    let mut done: Vec<String> = Vec::new();
    let mut part = String::new();
    let mut open: bool = false;
    let mut i: usize = 0;
    assert(text@.take(0) =~= Seq::<char>::empty());
    assert(text::views(done@) =~= runs(text@.take(0)));
    while i < chars.len()
        invariant
            chars@ == text@,
            i <= chars.len(),
            open == (i > 0 && text::alnum(text@[i - 1])),
            runs(text@.take(i as int)) == (if open {
                text::views(done@).push(part@)
            } else {
                text::views(done@)
            }),
            !open ==> part@.len() == 0,
        decreases chars.len() - i,
    {
        let ghost now = text@.take(i + 1);
        assert(now.drop_last() =~= text@.take(i as int));
        assert(i > 0 ==> now[now.len() - 2] == text@[i - 1]);
        let c = chars[i];
        if !text::is_alnum(c) {
            if open {
                proof {
                    text::lemma_views_push(done@, part);
                }
                done.push(part);
                part = String::new();
            }
            open = false;
        } else {
            assert(open ==> text::views(done@).push(part@).drop_last() =~= text::views(done@));
            part.push(c);
            open = true;
            assert(part@.len() == 1 ==> part@ =~= seq![c]);
        }
        i += 1;
        assert(runs(now) =~= (if open {
            text::views(done@).push(part@)
        } else {
            text::views(done@)
        }));
    }
    assert(text@.take(i as int) =~= text@);
    if open {
        proof {
            text::lemma_views_push(done@, part);
        }
        done.push(part);
    }
    done
}

/// The tokens of a text.
pub fn tokenize(s: &str) -> (tokens: Vec<String>)
    ensures
        text::views(tokens@) == tokens_of(s@),
{
    let parts = split_runs(s);
    let ghost all = text::views(parts@);
    let mut tokens: Vec<String> = Vec::new();
    let mut i: usize = 0;
    assert(all.take(0) =~= Seq::<Seq<char>>::empty());
    assert(text::views(tokens@) =~= telling(all.take(0)));
    while i < parts.len()
        invariant
            i <= parts.len(),
            all == text::views(parts@),
            text::views(tokens@) == telling(all.take(i as int)),
        decreases parts.len() - i,
    {
        assert(all.take(i + 1).drop_last() =~= all.take(i as int));
        let word = text::to_ascii_lower(parts[i].as_str());
        if word.as_str().unicode_len() >= 2 && !says_nothing(word.as_str()) {
            proof {
                text::lemma_views_push(tokens@, word);
            }
            tokens.push(word);
        }
        i += 1;
    }
    assert(all.take(i as int) =~= all);
    tokens
}

/// How well a tool fits the tokens of a query.
pub fn relevance_score(q_tokens: &Vec<String>, name: &str, desc: &str) -> (total: u128)
    ensures
        total == score(text::views(q_tokens@), name@, desc@),
{
    let ghost all = text::views(q_tokens@);
    let name_lower = text::to_ascii_lower(name);
    let desc_lower = text::to_ascii_lower(desc);
    let name_tokens = tokenize(name);
    let desc_tokens = tokenize(desc);
    let mut total: u128 = 0;
    let mut i: usize = 0;
    assert(all.take(0) =~= Seq::<Seq<char>>::empty());
    while i < q_tokens.len()
        invariant
            i <= q_tokens.len(),
            all == text::views(q_tokens@),
            name_lower@ == text::ascii_lower(name@),
            desc_lower@ == text::ascii_lower(desc@),
            text::views(name_tokens@) == tokens_of(name@),
            text::views(desc_tokens@) == tokens_of(desc@),
            total <= 7 * i,
            total == score(all.take(i as int), name@, desc@),
        decreases q_tokens.len() - i,
    {
        assert(all.take(i + 1).drop_last() =~= all.take(i as int));
        let token = q_tokens[i].as_str();
        if text::has_text(&name_tokens, token) {
            total += 5;
        } else if text::contains(name_lower.as_str(), token) {
            total += 3;
        }
        if text::has_text(&desc_tokens, token) {
            total += 2;
        } else if text::contains(desc_lower.as_str(), token) {
            total += 1;
        }
        i += 1;
    }
    assert(all.take(i as int) =~= all);
    total
}

// ---------------------------------------------------------------------------
// The registry
// ---------------------------------------------------------------------------

/// All tools, by name.
pub struct ToolRegistry {
    tools: SortedMap<ToolSpec>,
}

impl View for ToolRegistry {
    type V = Seq<(Seq<char>, ToolSpecView)>;

    closed spec fn view(&self) -> Seq<(Seq<char>, ToolSpecView)> {
        sorted_map::deep(self.tools@)
    }
}

/// The tools of a registry in the order of their names.
pub open spec fn tools_of(registry: Seq<(Seq<char>, ToolSpecView)>) -> Seq<ToolSpecView> {
    Seq::new(registry.len(), |i: int| registry[i].1)
}

/// The tools with their ranks for a query.
pub open spec fn scored(
    registry: Seq<(Seq<char>, ToolSpecView)>,
    query: Seq<char>,
) -> Seq<(Rank, ToolSpecView)> {
    Seq::new(
        registry.len(),
        |i: int|
            (
                Rank {
                    first: score(
                        tokens_of(query),
                        registry[i].1.name,
                        registry[i].1.description,
                    ) as u128,
                    second: 0,
                },
                registry[i].1,
            ),
    )
}

/// The tools that a model is shown: all of them in the order of their names where
/// they are within the limit, else those that fit the query best, and of equally
/// fitting ones those whose names come first.
pub open spec fn chosen(
    registry: Seq<(Seq<char>, ToolSpecView)>,
    query: Seq<char>,
    limit: nat,
) -> Seq<ToolSpecView> {
    if registry.len() <= limit {
        tools_of(registry)
    } else {
        sort::top(scored(registry, query), limit)
    }
}

/// What a list of tools holds.
pub open spec fn specs_view(specs: Seq<ToolSpec>) -> Seq<ToolSpecView> {
    Seq::new(specs.len(), |i: int| specs[i]@)
}

impl Default for ToolRegistry {
    fn default() -> (registry: Self)
        ensures
            registry@ == Seq::<(Seq<char>, ToolSpecView)>::empty(),
    {
        ToolRegistry::new()
    }
}

impl ToolRegistry {
    /// The registry without tools.
    pub fn new() -> (registry: Self)
        ensures
            registry@ == Seq::<(Seq<char>, ToolSpecView)>::empty(),
    {
        let registry = ToolRegistry { tools: SortedMap::new() };
        assert(registry@ =~= Seq::<(Seq<char>, ToolSpecView)>::empty());
        registry
    }

    /// Registers a tool under its name, in place of the one that had the name.
    pub fn register(&mut self, tool: ToolSpec)
        ensures
            final(self)@ == sorted_map::put(old(self)@, tool.name@, tool@),
            sorted_map::ascending(final(self)@),
    {
        let name = tool.name.clone();
        proof {
            sorted_map::lemma_deep_put(self.tools@, name@, tool);
        }
        self.tools.insert(name.as_str(), tool);
        proof {
            sorted_map::lemma_deep_map(self.tools@);
        }
    }

    /// The tool of a name.
    pub fn get(&self, name: &str) -> (tool: Option<&ToolSpec>)
        ensures
            match tool {
                Some(t) => sorted_map::as_map(self@).dom().contains(name@) && sorted_map::as_map(
                    self@,
                )[name@] == t@,
                None => !sorted_map::as_map(self@).dom().contains(name@),
            },
    {
        proof {
            sorted_map::lemma_deep_map(self.tools@);
        }
        self.tools.get(name)
    }

    /// The tools that a model is shown for a query.
    pub fn filter(&self, query: &str, limit: usize) -> (tools: Vec<ToolSpec>)
        ensures
            specs_view(tools@) == chosen(self@, query@, limit as nat),
    {
        let n: usize = self.tools.len();
        if n <= limit {
            let mut all: Vec<ToolSpec> = Vec::new();
            let mut i: usize = 0;
            while i < n
                invariant
                    i <= n == self.tools@.len(),
                    all.len() == i,
                    forall|k: int| 0 <= k < i ==> (#[trigger] all@[k])@ == self@[k].1,
                decreases n - i,
            {
                all.push(self.tools.value_at(i).copy());
                i += 1;
            }
            assert(specs_view(all@) =~= tools_of(self@));
            return all;
        }
        let q_tokens = tokenize(query);
        let mut ranked: Vec<(Rank, ToolSpec)> = Vec::new();
        let mut i: usize = 0;
        while i < n
            invariant
                i <= n == self.tools@.len(),
                text::views(q_tokens@) == tokens_of(query@),
                ranked.len() == i,
                forall|k: int|
                    0 <= k < i ==> ((#[trigger] ranked@[k]).0, ranked@[k].1@) == scored(
                        self@,
                        query@,
                    )[k],
            decreases n - i,
        {
            let tool = self.tools.value_at(i);
            assert(self@[i as int].1 == tool@);
            let first: u128 = relevance_score(
                &q_tokens,
                tool.name.as_str(),
                tool.description.as_str(),
            );
            ranked.push((Rank { first, second: 0 }, tool.copy()));
            i += 1;
        }
        assert(sort::seen(ranked@) =~= scored(self@, query@));
        sort::take_top(ranked, limit)
    }

    /// The number of tools.
    pub fn len(&self) -> (n: usize)
        ensures
            n == self@.len(),
    {
        self.tools.len()
    }

    /// Whether there is no tool.
    pub fn is_empty(&self) -> (r: bool)
        ensures
            r == (self@.len() == 0),
    {
        self.tools.is_empty()
    }
}

/// Whether each tool is registered under its name.
pub open spec fn by_name(registry: Seq<(Seq<char>, ToolSpecView)>) -> bool {
    forall|i: int| 0 <= i < registry.len() ==> (#[trigger] registry[i]).0 == registry[i].1.name
}

/// Whether a tool is shown before another: it fits the query better, or as well and has the
/// name that comes first.
pub open spec fn shown_before(query: Seq<char>, a: ToolSpecView, b: ToolSpecView) -> bool {
    let x = score(tokens_of(query), a.name, a.description);
    let y = score(tokens_of(query), b.name, b.description);
    x > y || (x == y && sorted_map::precedes(a.name, b.name))
}

/// A model is shown as many tools as the limit allows, each a registered one. Where not all
/// are shown, the better fitting come before the less fitting, and of equally fitting ones
/// those whose names come first. No tool that is left out would come before one that is
/// shown.
pub proof fn lemma_chosen(
    registry: Seq<(Seq<char>, ToolSpecView)>,
    query: Seq<char>,
    limit: nat,
)
    requires
        7 * tokens_of(query).len() <= u128::MAX,
        sorted_map::ascending(registry),
        by_name(registry),
    ensures
        ({
            let shown = chosen(registry, query, limit);
            &&& shown.len() == (if registry.len() <= limit {
                registry.len()
            } else {
                limit
            })
            &&& forall|k: int|
                0 <= k < shown.len() ==> tools_of(registry).contains(#[trigger] shown[k])
            &&& registry.len() > limit ==> forall|i: int, j: int|
                0 <= i < j < shown.len() ==> shown_before(
                    query,
                    #[trigger] shown[i],
                    #[trigger] shown[j],
                )
            &&& forall|r: int, k: int|
                0 <= r < registry.len() && 0 <= k < shown.len() && !shown.contains(
                    tools_of(registry)[r],
                ) ==> shown_before(query, #[trigger] shown[k], #[trigger] tools_of(registry)[r])
        }),
{
    let shown = chosen(registry, query, limit);
    let all = scored(registry, query);
    let tools = tools_of(registry);
    if registry.len() > limit {
        let places = sort::lemma_places(all);
        assert forall|k: int| 0 <= k < shown.len() implies tools.contains(#[trigger] shown[k])
            && shown[k] == tools[places[k]] by {
            assert(sort::in_ranks(all)[k] == all[places[k]]);
            assert(tools[places[k]] == all[places[k]].1);
        }
        assert forall|i: int, j: int|
            0 <= i < shown.len() && i < j < places.len() implies shown_before(
            query,
            #[trigger] tools[places[i]],
            #[trigger] tools[places[j]],
        ) by {
            lemma_leads(registry, query, places[i], places[j]);
        }
        assert forall|i: int, j: int| 0 <= i < j < shown.len() implies shown_before(
            query,
            #[trigger] shown[i],
            #[trigger] shown[j],
        ) by {
            assert(shown_before(query, tools[places[i]], tools[places[j]]));
        }
        assert forall|r: int, k: int|
            0 <= r < registry.len() && 0 <= k < shown.len() && !shown.contains(
                tools[r],
            ) implies shown_before(query, #[trigger] shown[k], #[trigger] tools[r]) by {
            assert(places.contains(r));
            let j = choose|j: int| 0 <= j < places.len() && places[j] == r;
            if j < shown.len() {
                assert(shown[j] == tools[r]);
            }
            assert(shown_before(query, tools[places[k]], tools[places[j]]));
        }
    } else {
        assert forall|k: int| 0 <= k < shown.len() implies tools.contains(#[trigger] shown[k]) by {
            assert(tools[k] == shown[k]);
        }
        assert forall|r: int| 0 <= r < registry.len() implies shown.contains(
            #[trigger] tools[r],
        ) by {
            assert(shown[r] == tools[r]);
        }
    }
}

proof fn lemma_leads(
    registry: Seq<(Seq<char>, ToolSpecView)>,
    query: Seq<char>,
    a: int,
    b: int,
)
    requires
        7 * tokens_of(query).len() <= u128::MAX,
        sorted_map::ascending(registry),
        by_name(registry),
        0 <= a < registry.len(),
        0 <= b < registry.len(),
        sort::leads(scored(registry, query), a, b),
    ensures
        shown_before(query, tools_of(registry)[a], tools_of(registry)[b]),
{
    let x = registry[a].1;
    let y = registry[b].1;
    lemma_score_bound(tokens_of(query), x.name, x.description);
    lemma_score_bound(tokens_of(query), y.name, y.description);
    assert(registry[a].0 == x.name && registry[b].0 == y.name);
    if a < b {
        assert(sorted_map::precedes(registry[a].0, registry[b].0));
    }
}

// ---------------------------------------------------------------------------
// What makes a tool fit
// ---------------------------------------------------------------------------

proof fn lemma_runs_all(word: Seq<char>)
    requires
        word.len() > 0,
        forall|i: int| 0 <= i < word.len() ==> text::alnum(#[trigger] word[i]),
    ensures
        runs(word) == seq![word],
    decreases word.len(),
{
    let rest = word.drop_last();
    if word.len() == 1 {
        assert(rest =~= Seq::<char>::empty());
        assert(runs(rest) =~= Seq::<Seq<char>>::empty());
        assert(word =~= seq![word.last()]);
        assert(text::alnum(word[0]));
        assert(runs(word) == runs(rest).push(seq![word.last()]));
        assert(runs(word) =~= seq![word]);
    } else {
        assert forall|i: int| 0 <= i < rest.len() implies text::alnum(#[trigger] rest[i]) by {
            assert(rest[i] == word[i]);
        }
        lemma_runs_all(rest);
        assert(rest.push(word.last()) =~= word);
        assert(text::alnum(word[word.len() - 2]));
        assert(text::alnum(word[word.len() - 1]));
        assert(runs(word) =~= seq![word]);
    }
}

/// A text is cut at every character that is neither an ASCII letter nor a digit, and nowhere
/// else: what stands before and behind such a character is cut by itself, and a text without
/// one is one part.
pub proof fn lemma_cut_into_runs(before: Seq<char>, c: char, after: Seq<char>)
    requires
        !text::alnum(c),
    ensures
        runs(before.push(c) + after) == runs(before) + runs(after),
        before.len() > 0 && (forall|i: int|
            0 <= i < before.len() ==> text::alnum(#[trigger] before[i])) ==> runs(before) == seq![
            before,
        ],
        runs(Seq::empty()) == Seq::<Seq<char>>::empty(),
    decreases after.len(),
{
    let all = before.push(c) + after;
    if before.len() > 0 && (forall|i: int|
        0 <= i < before.len() ==> text::alnum(#[trigger] before[i])) {
        lemma_runs_all(before);
    }
    if after.len() == 0 {
        assert(all =~= before.push(c));
        assert(all.drop_last() =~= before);
        assert(runs(before) + runs(after) =~= runs(before));
    } else {
        let rest = after.drop_last();
        lemma_cut_into_runs(before, c, rest);
        assert(all.drop_last() =~= before.push(c) + rest);
        assert(all.last() == after.last());
        if text::alnum(after.last()) {
            if after.len() >= 2 {
                assert(all[all.len() - 2] == after[after.len() - 2]);
                if text::alnum(after[after.len() - 2]) {
                    lemma_runs_end(rest);
                    assert(runs(all) =~= runs(before) + runs(after));
                } else {
                    assert(runs(all) =~= runs(before) + runs(after));
                }
            } else {
                assert(all[all.len() - 2] == c);
                assert(runs(all) =~= runs(before) + runs(after));
            }
        }
    }
}

proof fn lemma_runs_end(text: Seq<char>)
    requires
        text.len() > 0,
        text::alnum(text.last()),
    ensures
        runs(text).len() > 0,
{
}

/// The tokens of a text are its parts in lower case, in order, but for single characters and
/// for words that say nothing.
pub proof fn lemma_tokens(parts: Seq<Seq<char>>, part: Seq<char>)
    ensures
        telling(Seq::empty()) == Seq::<Seq<char>>::empty(),
        telling(parts.push(part)) == (if text::ascii_lower(part).len() >= 2 && !is_stopword(
            text::ascii_lower(part),
        ) {
            telling(parts).push(text::ascii_lower(part))
        } else {
            telling(parts)
        }),
{
    assert(parts.push(part).drop_last() =~= parts);
}

/// The words that say nothing.
pub proof fn lemma_stopwords(word: Seq<char>)
    ensures
        is_stopword(word) <==> {
            ||| word == "the"@ || word == "a"@ || word == "an"@ || word == "to"@ || word == "of"@
            ||| word == "in"@ || word == "on"@ || word == "for"@ || word == "and"@ || word == "or"@
            ||| word == "is"@ || word == "are"@ || word == "what"@ || word == "how"@ || word
                == "do"@
            ||| word == "does"@ || word == "can"@ || word == "you"@ || word == "i"@ || word
                == "me"@
            ||| word == "my"@ || word == "please"@ || word == "use"@ || word == "with"@ || word
                == "this"@
            ||| word == "that"@ || word == "it"@ || word == "be"@ || word == "get"@ || word
                == "want"@
            ||| word == "need"@ || word == "from"@ || word == "at"@
        },
{
    let all = stopwords();
    assert(all[0]@ == "the"@ && all[1]@ == "a"@ && all[2]@ == "an"@ && all[3]@ == "to"@
        && all[4]@ == "of"@ && all[5]@ == "in"@ && all[6]@ == "on"@ && all[7]@ == "for"@ && all[8]@
        == "and"@ && all[9]@ == "or"@ && all[10]@ == "is"@ && all[11]@ == "are"@);
    assert(all[12]@ == "what"@ && all[13]@ == "how"@ && all[14]@ == "do"@ && all[15]@ == "does"@
        && all[16]@ == "can"@ && all[17]@ == "you"@ && all[18]@ == "i"@ && all[19]@ == "me"@
        && all[20]@ == "my"@ && all[21]@ == "please"@ && all[22]@ == "use"@);
    assert(all[23]@ == "with"@ && all[24]@ == "this"@ && all[25]@ == "that"@ && all[26]@ == "it"@
        && all[27]@ == "be"@ && all[28]@ == "get"@ && all[29]@ == "want"@ && all[30]@ == "need"@
        && all[31]@ == "from"@ && all[32]@ == "at"@);
}

/// What a tool is worth for a query is the sum of what it is worth for each token. A token of
/// its name is worth five, a mere part of its name three, and beside that a token of its
/// description two and a mere part of it one.
pub proof fn lemma_worth(
    a: Seq<Seq<char>>,
    b: Seq<Seq<char>>,
    token: Seq<char>,
    name: Seq<char>,
    desc: Seq<char>,
)
    ensures
        score(a + b, name, desc) == score(a, name, desc) + score(b, name, desc),
        score(Seq::empty(), name, desc) == 0,
        ({
            let worth = score(seq![token], name, desc) as int;
            let of_name = tokens_of(name).contains(token);
            let in_name = text::occurs(text::ascii_lower(name), token);
            let of_desc = tokens_of(desc).contains(token);
            let in_desc = text::occurs(text::ascii_lower(desc), token);
            let rest = worth - (if of_name {
                5int
            } else if in_name {
                3
            } else {
                0
            });
            &&& of_desc ==> rest == 2
            &&& !of_desc && in_desc ==> rest == 1
            &&& !of_desc && !in_desc ==> rest == 0
        }),
    decreases b.len(),
{
    assert(seq![token].drop_last() =~= Seq::<Seq<char>>::empty());
    assert(score(seq![token], name, desc) == score(Seq::<Seq<char>>::empty(), name, desc)
        + token_score(token, name, desc));
    if b.len() == 0 {
        assert(a + b =~= a);
    } else {
        assert((a + b).drop_last() =~= a + b.drop_last());
        lemma_worth(a, b.drop_last(), token, name, desc);
    }
}

/// Where all tools are within the limit, all are shown in the order of their names.
pub proof fn lemma_all_shown(
    registry: Seq<(Seq<char>, ToolSpecView)>,
    query: Seq<char>,
    limit: nat,
)
    requires
        registry.len() <= limit,
    ensures
        chosen(registry, query, limit).len() == registry.len(),
        forall|i: int|
            0 <= i < registry.len() ==> chosen(registry, query, limit)[i] == (
            #[trigger] registry[i]).1,
{
}

} // verus!
