//! The SQL executor's parameter handling: internal `|name|` placeholders are
//! inlined as text, client `{name}` placeholders become bound `?` parameters.

use vstd::prelude::*;

use crate::endpoint::{Endpoint, Execute, HttpMethod};
use crate::reply::RequestError;
use crate::text::{from_chars, str_equal, to_chars, trim_space_chars, trim_spaces};

verus! {

/// A parameter handed to an endpoint's action.
#[derive(Clone, Debug)]
pub enum ExecuteParamValue {
    /// Server-controlled text, inlined into the query.
    Internal(String),
    /// Request-supplied text, bound as a prepared-statement value; `None` when the
    /// endpoint accepts the name but the request did not carry it.
    Client(Option<String>),
}

/// A parameter's value as contracts see it.
pub enum ParamView {
    Internal(Seq<char>),
    Client(Option<Seq<char>>),
}

impl View for ExecuteParamValue {
    type V = ParamView;

    open spec fn view(&self) -> ParamView {
        match self {
            ExecuteParamValue::Internal(v) => ParamView::Internal(v@),
            ExecuteParamValue::Client(Some(v)) => ParamView::Client(Some(v@)),
            ExecuteParamValue::Client(None) => ParamView::Client(None),
        }
    }
}

/// What a parameter list says of each name: the last entry for it wins.
pub open spec fn params_map(s: Seq<(String, ExecuteParamValue)>) -> Map<Seq<char>, ParamView>
    decreases s.len(),
{
    if s.len() == 0 {
        Map::empty()
    } else {
        params_map(s.drop_last()).insert(s.last().0@, s.last().1@)
    }
}

/// The parameters of one request, by name.
#[derive(Clone, Debug)]
pub struct ExecuteParams {
    pub entries: Vec<(String, ExecuteParamValue)>,
}

impl View for ExecuteParams {
    type V = Map<Seq<char>, ParamView>;

    open spec fn view(&self) -> Map<Seq<char>, ParamView> {
        params_map(self.entries@)
    }
}

proof fn lemma_params_prefix(s: Seq<(String, ExecuteParamValue)>, i: int, name: Seq<char>)
    requires
        0 <= i <= s.len(),
        forall|j: int| i <= j < s.len() ==> (#[trigger] s[j]).0@ != name,
    ensures
        params_map(s).contains_key(name) == params_map(s.subrange(0, i)).contains_key(name),
        params_map(s).contains_key(name) ==> params_map(s)[name] == params_map(
            s.subrange(0, i),
        )[name],
    decreases s.len(),
{
    if i == s.len() {
        assert(s.subrange(0, i) =~= s);
    } else {
        let d = s.drop_last();
        assert(d.subrange(0, i) =~= s.subrange(0, i));
        assert forall|j: int| i <= j < d.len() implies (#[trigger] d[j]).0@ != name by {
            assert(d[j] == s[j]);
        }
        lemma_params_prefix(d, i, name);
    }
}

impl ExecuteParams {
    /// No parameters.
    pub fn new() -> (r: ExecuteParams)
        ensures
            r@ == Map::<Seq<char>, ParamView>::empty(),
    {
        ExecuteParams { entries: Vec::new() }
    }

    /// Sets `name` to `value`, replacing what it held.
    pub fn insert(&mut self, name: String, value: ExecuteParamValue)
        ensures
            final(self)@ == old(self)@.insert(name@, value@),
    {
        proof {
            let s = self.entries@.push((name, value));
            assert(s.drop_last() =~= self.entries@);
        }
        self.entries.push((name, value));
    }

    /// The value of `name`, if set.
    pub fn get(&self, name: &str) -> (r: Option<&ExecuteParamValue>)
        ensures
            match r {
                Some(v) => self@.contains_key(name@) && v@ == self@[name@],
                None => !self@.contains_key(name@),
            },
    {
        let mut i: usize = self.entries.len();
        while i > 0
            invariant
                i <= self.entries@.len(),
                forall|j: int| i <= j < self.entries@.len() ==> (#[trigger] self.entries@[j]).0@
                    != name@,
            decreases i,
        {
            if str_equal(self.entries[i - 1].0.as_str(), name) {
                proof {
                    let s = self.entries@;
                    lemma_params_prefix(s, i as int, name@);
                    assert(s.subrange(0, i as int).drop_last() =~= s.subrange(0, i - 1));
                }
                return Some(&self.entries[i - 1].1);
            }
            i = i - 1;
        }
        proof {
            lemma_params_prefix(self.entries@, 0, name@);
        }
        None
    }
}

/// `t` cut at every `c`: the pieces between the cuts, in order (at least one).
pub open spec fn split_on(t: Seq<char>, c: char) -> Seq<Seq<char>>
    decreases t.len(),
{
    if t.len() == 0 {
        seq![Seq::empty()]
    } else {
        let prev = split_on(t.drop_last(), c);
        if t.last() == c {
            prev.push(Seq::empty())
        } else {
            prev.update(prev.len() - 1, prev.last().push(t.last()))
        }
    }
}

pub proof fn lemma_split_nonempty(t: Seq<char>, c: char)
    ensures
        split_on(t, c).len() >= 1,
    decreases t.len(),
{
    if t.len() > 0 {
        lemma_split_nonempty(t.drop_last(), c);
    }
}

/// The text of an internal parameter, when `name` holds one.
pub open spec fn internal_value(params: Map<Seq<char>, ParamView>, name: Seq<char>) -> Option<
    Seq<char>,
> {
    if params.contains_key(name) {
        match params[name] {
            ParamView::Internal(v) => Some(v),
            ParamView::Client(_) => None,
        }
    } else {
        None
    }
}

/// The text of a client parameter, when `name` holds one with a value.
pub open spec fn client_value(params: Map<Seq<char>, ParamView>, name: Seq<char>) -> Option<
    Seq<char>,
> {
    if params.contains_key(name) {
        match params[name] {
            ParamView::Client(Some(v)) => Some(v),
            _ => None,
        }
    } else {
        None
    }
}

/// The pieces of a template cut at `|`, with every odd piece (a `|name|`) replaced
/// by the internal value of its trimmed name; `Err` holds the first name without one.
pub open spec fn inline_internal(pieces: Seq<Seq<char>>, params: Map<Seq<char>, ParamView>) -> Result<
    Seq<char>,
    Seq<char>,
>
    decreases pieces.len(),
{
    if pieces.len() == 0 {
        Ok(Seq::empty())
    } else {
        match inline_internal(pieces.drop_last(), params) {
            Err(name) => Err(name),
            Ok(prefix) => if (pieces.len() - 1) % 2 == 0 {
                Ok(prefix + pieces.last())
            } else {
                match internal_value(params, trim_spaces(pieces.last())) {
                    Some(v) => Ok(prefix + v),
                    None => Err(trim_spaces(pieces.last())),
                }
            },
        }
    }
}

/// `k` is the first `}` of `p`.
pub open spec fn closes_at(p: Seq<char>, k: int) -> bool {
    0 <= k < p.len() && p[k] == '}' && forall|j: int| 0 <= j < k ==> p[j] != '}'
}

/// The position of the first `}` of `p`, if any.
pub open spec fn close_of(p: Seq<char>) -> Option<int> {
    if exists|k: int| closes_at(p, k) {
        Some(choose|k: int| closes_at(p, k))
    } else {
        None
    }
}

/// The placeholder named by a piece that follows a `{`: the trimmed text before its
/// first `}`, when that is not empty.
pub open spec fn piece_name(p: Seq<char>) -> Option<Seq<char>> {
    match close_of(p) {
        Some(k) => if trim_spaces(p.subrange(0, k)).len() > 0 {
            Some(trim_spaces(p.subrange(0, k)))
        } else {
            None
        },
        None => None,
    }
}

/// The query text a piece becomes: from its first `}` on, each `}` turned into `?`.
pub open spec fn piece_text(p: Seq<char>) -> Seq<char> {
    match close_of(p) {
        Some(k) => Seq::new(
            (p.len() - k) as nat,
            |i: int|
                if p[k + i] == '}' {
                    '?'
                } else {
                    p[k + i]
                },
        ),
        None => p,
    }
}

/// The client placeholder names of the pieces of a template cut at `{`, in order of
/// appearance (the first piece opens none).
pub open spec fn client_names(pieces: Seq<Seq<char>>) -> Seq<Seq<char>>
    decreases pieces.len(),
{
    if pieces.len() == 0 {
        Seq::empty()
    } else {
        let prev = client_names(pieces.drop_last());
        if pieces.len() >= 2 && piece_name(pieces.last()) is Some {
            prev.push(piece_name(pieces.last()).unwrap())
        } else {
            prev
        }
    }
}

/// The query text of the pieces of a template cut at `{`.
pub open spec fn client_text(pieces: Seq<Seq<char>>) -> Seq<char>
    decreases pieces.len(),
{
    if pieces.len() == 0 {
        Seq::empty()
    } else {
        client_text(pieces.drop_last()) + piece_text(pieces.last())
    }
}

/// The pattern that removes the `name = ?` assignment of a PUT, with the comma on
/// either side: `,\s*name\s*=\s*\?|name\s*=\s*\?\s*,?`.
pub open spec fn strip_pattern(name: Seq<char>) -> Seq<char> {
    seq![',', '\\', 's', '*'] + name + seq!['\\', 's', '*', '=', '\\', 's', '*', '\\', '?', '|']
        + name + seq!['\\', 's', '*', '=', '\\', 's', '*', '\\', '?', '\\', 's', '*', ',', '?']
}

/// Whether `regex::Regex::new` accepts `pattern`.
pub uninterp spec fn regex_compiles(pattern: Seq<char>) -> bool;

/// What `Regex::replace_all` with an empty replacement leaves of `text`.
pub uninterp spec fn regex_removed(pattern: Seq<char>, text: Seq<char>) -> Seq<char>;

/// A name of ASCII letters, digits and `_`, of at most 256 characters.
pub open spec fn word_name(n: Seq<char>) -> bool {
    n.len() <= 256 && forall|i: int|
        0 <= i < n.len() ==> ('a' <= n[i] <= 'z' || 'A' <= n[i] <= 'Z' || '0' <= n[i] <= '9'
            || n[i] == '_')
}

/// Relies on `regex::Regex::new` (whether it fails depends on the pattern alone; the
/// strip pattern of a short word name is a valid, small regex) and on
/// `Regex::replace_all`, which here removes every match of `pattern` from `text`.
#[verifier::external_body]
fn remove_matches(pattern: &str, text: &str) -> (r: Option<String>)
    ensures
        (exists|n: Seq<char>| word_name(n) && pattern@ == strip_pattern(n)) ==> r is Some,
        r is Some <==> regex_compiles(pattern@),
        r matches Some(s) ==> s@ == regex_removed(pattern@, text@),
{
    match regex::Regex::new(pattern) {
        Ok(re) => Some(re.replace_all(text, "").into_owned()),
        Err(_) => None,
    }
}

/// Why a query could not be prepared, as stated in contracts.
pub enum QueryFault {
    RuntimeParamMissing(Seq<char>),
    RequiredParamMissing(Seq<char>),
    InvalidStripPattern(Seq<char>),
}

/// The query and bound values after handling the client placeholders `names` in
/// order: a present value is bound; a missing one strips its assignment on PUT and
/// fails otherwise.
pub open spec fn bind_values(
    query: Seq<char>,
    names: Seq<Seq<char>>,
    params: Map<Seq<char>, ParamView>,
    method: HttpMethod,
) -> Result<(Seq<char>, Seq<Seq<char>>), QueryFault>
    decreases names.len(),
{
    if names.len() == 0 {
        Ok((query, Seq::empty()))
    } else {
        match bind_values(query, names.drop_last(), params, method) {
            Err(f) => Err(f),
            Ok((q, vals)) => {
                let n = names.last();
                match client_value(params, n) {
                    Some(v) => Ok((q, vals.push(v))),
                    None => if method == HttpMethod::Put {
                        if word_name(n) || regex_compiles(strip_pattern(n)) {
                            Ok((regex_removed(strip_pattern(n), q), vals))
                        } else {
                            Err(QueryFault::InvalidStripPattern(n))
                        }
                    } else {
                        Err(QueryFault::RequiredParamMissing(n))
                    },
                }
            },
        }
    }
}

/// The statement issued for `template`: internal placeholders inlined first, then
/// client placeholders rewritten to `?` with their values collected in order.
pub open spec fn prepared(
    template: Seq<char>,
    method: HttpMethod,
    params: Map<Seq<char>, ParamView>,
) -> Result<(Seq<char>, Seq<Seq<char>>), QueryFault> {
    match inline_internal(split_on(template, '|'), params) {
        Err(name) => Err(QueryFault::RuntimeParamMissing(name)),
        Ok(text) => bind_values(
            client_text(split_on(text, '{')),
            client_names(split_on(text, '{')),
            params,
            method,
        ),
    }
}

proof fn lemma_inline_err_persists(
    p: Seq<Seq<char>>,
    k: int,
    params: Map<Seq<char>, ParamView>,
)
    requires
        0 <= k <= p.len(),
        inline_internal(p.subrange(0, k), params) is Err,
    ensures
        inline_internal(p, params) == inline_internal(p.subrange(0, k), params),
    decreases p.len() - k,
{
    if k < p.len() {
        let s = p.subrange(0, k + 1);
        assert(s.drop_last() =~= p.subrange(0, k));
        lemma_inline_err_persists(p, k + 1, params);
    } else {
        assert(p.subrange(0, k) =~= p);
    }
}

proof fn lemma_bind_err_persists(
    query: Seq<char>,
    names: Seq<Seq<char>>,
    k: int,
    params: Map<Seq<char>, ParamView>,
    method: HttpMethod,
)
    requires
        0 <= k <= names.len(),
        bind_values(query, names.subrange(0, k), params, method) is Err,
    ensures
        bind_values(query, names, params, method) == bind_values(
            query,
            names.subrange(0, k),
            params,
            method,
        ),
    decreases names.len() - k,
{
    if k < names.len() {
        let s = names.subrange(0, k + 1);
        assert(s.drop_last() =~= names.subrange(0, k));
        lemma_bind_err_persists(query, names, k + 1, params, method);
    } else {
        assert(names.subrange(0, k) =~= names);
    }
}

proof fn lemma_split_without_sep(t: Seq<char>, c: char)
    requires
        forall|i: int| 0 <= i < t.len() ==> t[i] != c,
    ensures
        split_on(t, c) == seq![t],
    decreases t.len(),
{
    if t.len() > 0 {
        lemma_split_without_sep(t.drop_last(), c);
        assert(t.drop_last().push(t.last()) =~= t);
        assert(seq![t.drop_last()].update(0, t.drop_last().push(t.last())) =~= seq![t]);
    } else {
        assert(t =~= Seq::<char>::empty());
    }
}

proof fn lemma_split_concat(x: Seq<char>, y: Seq<char>, c: char)
    ensures
        split_on(x + seq![c] + y, c) == split_on(x, c) + split_on(y, c),
    decreases y.len(),
{
    let t = x + seq![c] + y;
    if y.len() == 0 {
        assert(t.drop_last() =~= x);
        assert(split_on(y, c) =~= seq![Seq::<char>::empty()]);
        assert(split_on(x, c).push(Seq::empty()) =~= split_on(x, c) + seq![Seq::<char>::empty()]);
    } else {
        lemma_split_concat(x, y.drop_last(), c);
        lemma_split_nonempty(y.drop_last(), c);
        lemma_split_nonempty(x, c);
        assert(t.drop_last() =~= x + seq![c] + y.drop_last());
        assert(t.last() == y.last());
        let sx = split_on(x, c);
        let sy = split_on(y.drop_last(), c);
        let prev = sx + sy;
        if y.last() == c {
            assert(prev.push(Seq::empty()) =~= sx + sy.push(Seq::empty()));
        } else {
            assert(prev.update(prev.len() - 1, prev.last().push(y.last())) =~= sx + sy.update(
                sy.len() - 1,
                sy.last().push(y.last()),
            ));
        }
    }
}

proof fn lemma_bind_all_present(
    query: Seq<char>,
    names: Seq<Seq<char>>,
    params: Map<Seq<char>, ParamView>,
    method: HttpMethod,
)
    requires
        forall|i: int| 0 <= i < names.len() ==> client_value(params, #[trigger] names[i]) is Some,
    ensures
        bind_values(query, names, params, method) == Ok::<(Seq<char>, Seq<Seq<char>>), QueryFault>(
            (query, names.map_values(|n: Seq<char>| client_value(params, n).unwrap())),
        ),
    decreases names.len(),
{
    if names.len() == 0 {
        assert(names.map_values(|n: Seq<char>| client_value(params, n).unwrap()) =~= Seq::<
            Seq<char>,
        >::empty());
    } else {
        let d = names.drop_last();
        assert forall|i: int| 0 <= i < d.len() implies client_value(params, #[trigger] d[i]) is Some by {
            assert(d[i] == names[i]);
        }
        lemma_bind_all_present(query, d, params, method);
        assert(client_value(params, names[names.len() - 1]) is Some);
        assert(d.map_values(|n: Seq<char>| client_value(params, n).unwrap()).push(
            client_value(params, names.last()).unwrap(),
        ) =~= names.map_values(|n: Seq<char>| client_value(params, n).unwrap()));
    }
}

/// Values follow the template: when a template has no internal placeholder and each
/// of its client placeholders has a value, the statement is the template with each
/// placeholder turned into `?`, and the bound values are the placeholders' values in
/// their left-to-right order in the template.
pub proof fn lemma_values_in_placeholder_order(
    template: Seq<char>,
    method: HttpMethod,
    params: Map<Seq<char>, ParamView>,
)
    requires
        forall|i: int| 0 <= i < template.len() ==> template[i] != '|',
        forall|i: int|
            0 <= i < client_names(split_on(template, '{')).len() ==> client_value(
                params,
                #[trigger] client_names(split_on(template, '{'))[i],
            ) is Some,
    ensures
        prepared(template, method, params) == Ok::<(Seq<char>, Seq<Seq<char>>), QueryFault>(
            (
                client_text(split_on(template, '{')),
                client_names(split_on(template, '{')).map_values(
                    |n: Seq<char>| client_value(params, n).unwrap(),
                ),
            ),
        ),
{
    lemma_split_without_sep(template, '|');
    let p = seq![template];
    assert(p.drop_last() =~= Seq::<Seq<char>>::empty());
    assert(Seq::<char>::empty() + template =~= template);
    assert(inline_internal(p.drop_last(), params) == Ok::<Seq<char>, Seq<char>>(Seq::empty()));
    assert(inline_internal(p, params) == Ok::<Seq<char>, Seq<char>>(template));
    lemma_bind_all_present(
        client_text(split_on(template, '{')),
        client_names(split_on(template, '{')),
        params,
        method,
    );
}

/// Internal values are inlined: in a template `before|name|after` whose parts hold no
/// `|`, the internal value of the trimmed name replaces the placeholder as text, and
/// client placeholders are then taken from the inlined text.
pub proof fn lemma_internal_inlined(
    before: Seq<char>,
    name: Seq<char>,
    after: Seq<char>,
    method: HttpMethod,
    params: Map<Seq<char>, ParamView>,
)
    requires
        forall|i: int| 0 <= i < before.len() ==> before[i] != '|',
        forall|i: int| 0 <= i < name.len() ==> name[i] != '|',
        forall|i: int| 0 <= i < after.len() ==> after[i] != '|',
        internal_value(params, trim_spaces(name)) is Some,
    ensures
        prepared(before + seq!['|'] + name + seq!['|'] + after, method, params) == ({
            let text = before + internal_value(params, trim_spaces(name)).unwrap() + after;
            bind_values(
                client_text(split_on(text, '{')),
                client_names(split_on(text, '{')),
                params,
                method,
            )
        }),
{
    let v = internal_value(params, trim_spaces(name)).unwrap();
    lemma_split_without_sep(before, '|');
    lemma_split_without_sep(name, '|');
    lemma_split_without_sep(after, '|');
    lemma_split_concat(before, name + seq!['|'] + after, '|');
    lemma_split_concat(name, after, '|');
    assert(before + seq!['|'] + name + seq!['|'] + after =~= before + seq!['|'] + (name + seq!['|']
        + after));
    let p = seq![before, name, after];
    assert(split_on(before + seq!['|'] + name + seq!['|'] + after, '|') =~= p);
    assert(p.drop_last() =~= seq![before, name]);
    assert(p.drop_last().drop_last() =~= seq![before]);
    assert(seq![before].drop_last() =~= Seq::<Seq<char>>::empty());
    assert(Seq::<char>::empty() + before =~= before);
    assert(inline_internal(Seq::<Seq<char>>::empty(), params) == Ok::<Seq<char>, Seq<char>>(
        Seq::empty(),
    ));
    assert(seq![before].last() == before);
    assert(inline_internal(seq![before], params) == Ok::<Seq<char>, Seq<char>>(before));
    assert(inline_internal(seq![before, name], params) == Ok::<Seq<char>, Seq<char>>(before + v));
    assert(inline_internal(p, params) == Ok::<Seq<char>, Seq<char>>(before + v + after));
}

/// A statement ready for the database: text with `?` placeholders and the values
/// to bind to them, in order.
#[derive(Clone, Debug)]
pub struct PreparedQuery {
    pub query: String,
    pub values: Vec<String>,
}

/// Why a query could not be prepared; each answers with status 500.
#[derive(Clone, Debug)]
pub enum ExecuteError {
    /// An internal `|name|` placeholder had no internal value.
    RuntimeParamMissing { name: String },
    /// A client `{name}` placeholder had no value on a method other than PUT.
    RequiredParamMissing { name: String },
    /// The pattern that strips a missing PUT assignment could not be built.
    InvalidStripPattern { name: String },
}

/// The contract view of a preparation's outcome.
pub open spec fn prepared_view(r: Result<PreparedQuery, ExecuteError>) -> Result<
    (Seq<char>, Seq<Seq<char>>),
    QueryFault,
> {
    match r {
        Ok(p) => Ok((p.query@, p.values@.map_values(|v: String| v@))),
        Err(ExecuteError::RuntimeParamMissing { name }) => Err(
            QueryFault::RuntimeParamMissing(name@),
        ),
        Err(ExecuteError::RequiredParamMissing { name }) => Err(
            QueryFault::RequiredParamMissing(name@),
        ),
        Err(ExecuteError::InvalidStripPattern { name }) => Err(
            QueryFault::InvalidStripPattern(name@),
        ),
    }
}

/// Cuts `t` at every `c`.
pub fn split_chars(t: &Vec<char>, c: char) -> (r: Vec<Vec<char>>)
    ensures
        r@.map_values(|p: Vec<char>| p@) == split_on(t@, c),
{
    let mut pieces: Vec<Vec<char>> = Vec::new();
    let mut cur: Vec<char> = Vec::new();
    let mut i: usize = 0;
    proof {
        assert(t@.subrange(0, 0) =~= Seq::<char>::empty());
        assert(pieces@.map_values(|p: Vec<char>| p@).push(cur@) =~= seq![Seq::<char>::empty()]);
    }
    while i < t.len()
        invariant
            i <= t@.len(),
            split_on(t@.subrange(0, i as int), c) == pieces@.map_values(|p: Vec<char>| p@).push(
                cur@,
            ),
        decreases t@.len() - i,
    {
        let ghost before = pieces@.map_values(|p: Vec<char>| p@);
        let ghost cur0 = cur@;
        proof {
            let s = t@.subrange(0, i as int + 1);
            assert(s.drop_last() =~= t@.subrange(0, i as int));
            assert(s.last() == t@[i as int]);
        }
        if t[i] == c {
            pieces.push(cur);
            cur = Vec::new();
            proof {
                assert(pieces@.map_values(|p: Vec<char>| p@) =~= before.push(cur0));
                assert(pieces@.map_values(|p: Vec<char>| p@).push(cur@) =~= before.push(cur0).push(
                    Seq::empty(),
                ));
            }
        } else {
            cur.push(t[i]);
            proof {
                let prev = before.push(cur0);
                assert(prev.update(prev.len() - 1, prev.last().push(t@[i as int])) =~= before.push(
                    cur@,
                ));
            }
        }
        i = i + 1;
    }
    pieces.push(cur);
    proof {
        assert(t@.subrange(0, t@.len() as int) =~= t@);
    }
    assert(pieces@.map_values(|p: Vec<char>| p@) =~= split_on(t@, c));
    pieces
}

/// The first `}` of `p`, if any.
pub fn find_close(p: &Vec<char>) -> (r: Option<usize>)
    ensures
        match r {
            Some(k) => close_of(p@) == Some(k as int),
            None => close_of(p@) is None,
        },
{
    let mut i: usize = 0;
    while i < p.len()
        invariant
            i <= p@.len(),
            forall|j: int| 0 <= j < i ==> p@[j] != '}',
        decreases p@.len() - i,
    {
        if p[i] == '}' {
            proof {
                assert(closes_at(p@, i as int));
                let k = choose|k: int| closes_at(p@, k);
                assert(k == i as int) by {
                    if k < i as int {
                        assert(p@[k] != '}');
                    } else if k > i as int {
                        assert(p@[i as int] != '}');
                    }
                }
            }
            return Some(i);
        }
        i = i + 1;
    }
    proof {
        assert(!exists|k: int| closes_at(p@, k)) by {
            if exists|k: int| closes_at(p@, k) {
                let k = choose|k: int| closes_at(p@, k);
                assert(p@[k] != '}');
            }
        }
    }
    None
}

/// Appends `other` to `out`.
fn append_chars(out: &mut Vec<char>, other: &Vec<char>)
    ensures
        final(out)@ == old(out)@ + other@,
{
    let mut o = other.clone();
    proof {
        assert(o@ =~= other@);
    }
    out.append(&mut o);
}

/// Inlines the internal placeholders of `template`.
fn inline_internal_chars(template: &Vec<char>, params: &ExecuteParams) -> (r: Result<
    Vec<char>,
    Vec<char>,
>)
    ensures
        match r {
            Ok(t) => inline_internal(split_on(template@, '|'), params@) == Ok::<
                Seq<char>,
                Seq<char>,
            >(t@),
            Err(n) => inline_internal(split_on(template@, '|'), params@) == Err::<
                Seq<char>,
                Seq<char>,
            >(n@),
        },
{
    let pieces = split_chars(template, '|');
    let ghost pv = pieces@.map_values(|p: Vec<char>| p@);
    let mut out: Vec<char> = Vec::new();
    let mut k: usize = 0;
    proof {
        assert(pv.subrange(0, 0) =~= Seq::<Seq<char>>::empty());
    }
    while k < pieces.len()
        invariant
            k <= pieces@.len(),
            pv == pieces@.map_values(|p: Vec<char>| p@),
            pv == split_on(template@, '|'),
            inline_internal(pv.subrange(0, k as int), params@) == Ok::<Seq<char>, Seq<char>>(
                out@,
            ),
        decreases pieces@.len() - k,
    {
        proof {
            let s = pv.subrange(0, k as int + 1);
            assert(s.drop_last() =~= pv.subrange(0, k as int));
            assert(s.last() == pieces@[k as int]@);
        }
        if k % 2 == 0 {
            append_chars(&mut out, &pieces[k]);
        } else {
            let name = trim_space_chars(&pieces[k]);
            let name_text = from_chars(name.as_slice());
            match params.get(name_text.as_str()) {
                Some(ExecuteParamValue::Internal(v)) => {
                    let vc = to_chars(v.as_str());
                    append_chars(&mut out, &vc);
                },
                _ => {
                    proof {
                        let s = pv.subrange(0, k as int + 1);
                        assert(internal_value(params@, name@) is None);
                        assert(s.last() == pieces@[k as int]@);
                        assert(name@ == trim_spaces(s.last()));
                        assert(inline_internal(s.drop_last(), params@) is Ok);
                        assert(inline_internal(s, params@) == Err::<Seq<char>, Seq<char>>(name@));
                        lemma_inline_err_persists(pv, k as int + 1, params@);
                    }
                    return Err(name);
                },
            }
        }
        k = k + 1;
    }
    proof {
        assert(pv.subrange(0, pv.len() as int) =~= pv);
    }
    Ok(out)
}

/// The query text a piece becomes, given its first `}`.
fn piece_text_chars(p: &Vec<char>) -> (r: Vec<char>)
    ensures
        r@ == piece_text(p@),
{
    match find_close(p) {
        None => p.clone(),
        Some(k) => {
            let mut r: Vec<char> = Vec::new();
            let mut i: usize = k;
            while i < p.len()
                invariant
                    k <= i <= p@.len(),
                    r@.len() == i - k,
                    forall|j: int|
                        0 <= j < i - k ==> r@[j] == (if p@[k + j] == '}' {
                            '?'
                        } else {
                            p@[k + j]
                        }),
                decreases p@.len() - i,
            {
                if p[i] == '}' {
                    r.push('?');
                } else {
                    r.push(p[i]);
                }
                i = i + 1;
            }
            assert(r@ =~= piece_text(p@));
            r
        },
    }
}

/// The client placeholder names and query text of `text`.
fn client_parts(text: &Vec<char>) -> (r: (Vec<Vec<char>>, Vec<char>))
    ensures
        r.0@.map_values(|p: Vec<char>| p@) == client_names(split_on(text@, '{')),
        r.1@ == client_text(split_on(text@, '{')),
{
    let pieces = split_chars(text, '{');
    let ghost pv = pieces@.map_values(|p: Vec<char>| p@);
    let mut names: Vec<Vec<char>> = Vec::new();
    let mut query: Vec<char> = Vec::new();
    let mut k: usize = 0;
    proof {
        assert(pv.subrange(0, 0) =~= Seq::<Seq<char>>::empty());
        assert(names@.map_values(|p: Vec<char>| p@) =~= Seq::<Seq<char>>::empty());
    }
    while k < pieces.len()
        invariant
            k <= pieces@.len(),
            pv == pieces@.map_values(|p: Vec<char>| p@),
            names@.map_values(|p: Vec<char>| p@) == client_names(pv.subrange(0, k as int)),
            query@ == client_text(pv.subrange(0, k as int)),
        decreases pieces@.len() - k,
    {
        let ghost before = names@.map_values(|p: Vec<char>| p@);
        proof {
            let s = pv.subrange(0, k as int + 1);
            assert(s.drop_last() =~= pv.subrange(0, k as int));
            assert(s.last() == pieces@[k as int]@);
        }
        let t = piece_text_chars(&pieces[k]);
        append_chars(&mut query, &t);
        if k >= 1 {
            match find_close(&pieces[k]) {
                Some(c) => {
                    let head = crate::text::slice_chars(&pieces[k], 0, c);
                    let name = trim_space_chars(&head);
                    if name.len() > 0 {
                        names.push(name);
                        proof {
                            assert(names@.map_values(|p: Vec<char>| p@) =~= before.push(
                                piece_name(pieces@[k as int]@).unwrap(),
                            ));
                        }
                    }
                },
                None => {},
            }
        }
        k = k + 1;
    }
    proof {
        assert(pv.subrange(0, pv.len() as int) =~= pv);
    }
    (names, query)
}

/// The characters of `strip_pattern(name)`.
fn strip_pattern_chars(name: &Vec<char>) -> (r: Vec<char>)
    ensures
        r@ == strip_pattern(name@),
{
    let mut r = vec![',', '\\', 's', '*'];
    append_chars(&mut r, name);
    append_chars(&mut r, &vec!['\\', 's', '*', '=', '\\', 's', '*', '\\', '?', '|']);
    append_chars(&mut r, name);
    append_chars(&mut r, &vec!['\\', 's', '*', '=', '\\', 's', '*', '\\', '?', '\\', 's', '*', ',', '?']);
    r
}

/// A parameterised SQL query, the action of most endpoints.
#[derive(Clone, Debug)]
pub struct MySQLExecute {
    /// The template, with internal `|name|` and client `{name}` placeholders.
    pub query: String,
}

/// What an action receives: the request's parameters and its raw body.
#[derive(Clone, Debug)]
pub struct ExecuteInput {
    pub params: ExecuteParams,
    pub value: Vec<u8>,
}

impl MySQLExecute {
    /// Prepares the statement for a request with `method` and `input`: inlines each
    /// internal `|name|` placeholder (failing when its internal value is missing),
    /// rewrites each client `{name}` placeholder to `?` and collects the client values
    /// in order of appearance; a client value that is missing strips its `name = ?`
    /// assignment on PUT and fails on any other method.
    pub fn execute(&self, method: HttpMethod, input: &ExecuteInput) -> (r: Result<
        PreparedQuery,
        ExecuteError,
    >)
        ensures
            prepared_view(r) == prepared(self.query@, method, input.params@),
    {
        let template = self.query.as_str();
        let params = &input.params;
        let tv = to_chars(template);
        let text = match inline_internal_chars(&tv, params) {
            Ok(t) => t,
            Err(n) => {
                return Err(ExecuteError::RuntimeParamMissing { name: from_chars(n.as_slice()) });
            },
        };
        let (names, query0) = client_parts(&text);
        let ghost nv = names@.map_values(|p: Vec<char>| p@);
        let mut query = from_chars(query0.as_slice());
        let mut values: Vec<String> = Vec::new();
        let mut k: usize = 0;
        proof {
            assert(nv.subrange(0, 0) =~= Seq::<Seq<char>>::empty());
            assert(values@.map_values(|v: String| v@) =~= Seq::<Seq<char>>::empty());
        }
        while k < names.len()
            invariant
                k <= names@.len(),
                nv == names@.map_values(|p: Vec<char>| p@),
                prepared(template@, method, params@) == bind_values(query0@, nv, params@, method),
                template@ == self.query@,
                params@ == input.params@,
                bind_values(query0@, nv.subrange(0, k as int), params@, method) == Ok::<
                    (Seq<char>, Seq<Seq<char>>),
                    QueryFault,
                >((query@, values@.map_values(|v: String| v@))),
            decreases names@.len() - k,
        {
            let ghost before = values@.map_values(|v: String| v@);
            proof {
                let s = nv.subrange(0, k as int + 1);
                assert(s.drop_last() =~= nv.subrange(0, k as int));
                assert(s.last() == names@[k as int]@);
            }
            let name = from_chars(names[k].as_slice());
            match params.get(name.as_str()) {
                Some(ExecuteParamValue::Client(Some(v))) => {
                    values.push(v.clone());
                    proof {
                        assert(values@.map_values(|v: String| v@) =~= before.push(v@));
                    }
                },
                _ => {
                    if method == HttpMethod::Put {
                        let pattern = from_chars(strip_pattern_chars(&names[k]).as_slice());
                        match remove_matches(pattern.as_str(), query.as_str()) {
                            Some(q) => {
                                query = q;
                            },
                            None => {
                                proof {
                                    lemma_bind_err_persists(query0@, nv, k as int + 1, params@, method);
                                }
                                return Err(ExecuteError::InvalidStripPattern { name });
                            },
                        }
                    } else {
                        proof {
                            lemma_bind_err_persists(query0@, nv, k as int + 1, params@, method);
                        }
                        return Err(ExecuteError::RequiredParamMissing { name });
                    }
                },
            }
            k = k + 1;
        }
        proof {
            assert(nv.subrange(0, nv.len() as int) =~= nv);
        }
        Ok(PreparedQuery { query, values })
    }
}

impl ExecuteError {
    /// The 500 answer of the error.
    pub fn to_request_error(&self) -> (r: RequestError)
        ensures
            r matches RequestError::Expected { status, message } && status == 500 && message@
                == match self {
                ExecuteError::RuntimeParamMissing { name } => "Expected the runtime parameter `"@
                    + name@ + "`, but it was not injected."@,
                ExecuteError::RequiredParamMissing { name } => "The endpoint requires '"@ + name@
                    + "', but it wasn't provided in the request."@,
                ExecuteError::InvalidStripPattern { name } => "Cannot create the pattern to strip '"@
                    + name@ + "' from the query."@,
            },
    {
        let message = match self {
            ExecuteError::RuntimeParamMissing { name } => String::from_str(
                "Expected the runtime parameter `",
            ).concat(name.as_str()).concat("`, but it was not injected."),
            ExecuteError::RequiredParamMissing { name } => String::from_str(
                "The endpoint requires '",
            ).concat(name.as_str()).concat("', but it wasn't provided in the request."),
            ExecuteError::InvalidStripPattern { name } => String::from_str(
                "Cannot create the pattern to strip '",
            ).concat(name.as_str()).concat("' from the query."),
        };
        RequestError::Expected { status: 500, message }
    }
}

/// Runs `action` for a request with `method` and `params`: a hook is not run by this
/// executor (500), a query is prepared (500 when it cannot be).
fn run_action(action: &Execute, method: HttpMethod, params: ExecuteParams) -> (r: Result<
    PreparedQuery,
    RequestError,
>)
    ensures
        match action {
            Execute::MySql(m) => match prepared(m.query@, method, params@) {
                Ok((q, vs)) => r matches Ok(p) && p.query@ == q && p.values@.map_values(
                    |v: String| v@,
                ) == vs,
                Err(_) => r matches Err(RequestError::Expected { status, .. }) && status == 500,
            },
            Execute::Hook { .. } => r matches Err(RequestError::Expected { status, .. }) && status
                == 500,
        },
{
    match action {
        Execute::Hook { .. } => Err(
            RequestError::Expected {
                status: 500,
                message: String::from_str("Custom endpoint hooks are not run by this executor."),
            },
        ),
        Execute::MySql(m) => {
            let input = ExecuteInput { params, value: Vec::new() };
            match m.execute(method, &input) {
                Ok(p) => Ok(p),
                Err(e) => Err(e.to_request_error()),
            }
        },
    }
}

/// An endpoint action as the executor runs it.
pub struct ExecuteExt(pub Execute);

impl ExecuteExt {
    /// The statement the action issues for a request with `method` and `params`.
    pub fn execute(&self, method: HttpMethod, params: ExecuteParams) -> (r: Result<
        PreparedQuery,
        RequestError,
    >)
        ensures
            match self.0 {
                Execute::MySql(m) => match prepared(m.query@, method, params@) {
                    Ok((q, vs)) => r matches Ok(p) && p.query@ == q && p.values@.map_values(
                        |v: String| v@,
                    ) == vs,
                    Err(_) => r matches Err(RequestError::Expected { status, .. }) && status == 500,
                },
                Execute::Hook { .. } => r matches Err(RequestError::Expected { status, .. })
                    && status == 500,
            },
    {
        run_action(&self.0, method, params)
    }
}

/// The innermost layer of the request pipeline: the endpoint's action.
pub struct ExecuteHandler;

impl ExecuteHandler {
    /// The statement an endpoint's action issues for a request: fails with 500 when
    /// the endpoint has no action, when its action is a hook, or when its query cannot
    /// be prepared from `params`.
    pub fn query(endpoint: &Endpoint, params: ExecuteParams) -> (r: Result<
        PreparedQuery,
        RequestError,
    >)
        ensures
            match endpoint.execute {
                Some(Execute::MySql(m)) => match prepared(m.query@, endpoint.method, params@) {
                    Ok((q, vs)) => r matches Ok(p) && p.query@ == q && p.values@.map_values(
                        |v: String| v@,
                    ) == vs,
                    Err(_) => r matches Err(RequestError::Expected { status, .. }) && status == 500,
                },
                _ => r matches Err(RequestError::Expected { status, .. }) && status == 500,
            },
    {
        match &endpoint.execute {
            None => {
                let m = String::from_str(
                    "The route doesn't have any executor defined. HINT: check that '",
                ).concat(endpoint.id.as_str()).concat("' has an executor set.");
                Err(RequestError::Expected { status: 500, message: m })
            },
            Some(action) => run_action(action, endpoint.method, params),
        }
    }
}
} // verus!
