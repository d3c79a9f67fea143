use vstd::prelude::*;

use crate::substring::Substring;

verus! {

/// The parsed arguments as a model: each key with its values, keys in the
/// order in which they were first seen.
pub type Entries = Seq<(Seq<char>, Seq<Seq<char>>)>;

/// Why parsing failed, with the token or argument name that caused it.
pub type Failure = (ErrorKind, Seq<char>);

/// The ways in which parsing can fail.
#[derive(Debug, Clone, Copy, PartialEq, Eq, Structural)]
pub enum ErrorKind {
    /// The token does not start with `--`.
    MalformedPrefix,
    /// The token holds no `=`.
    MissingDelimiter,
    /// The key or the value of the token is empty.
    IncompleteArgument,
    /// A required argument was not given.
    MissingRequired,
}

/// A parse error: what went wrong and on which token or argument name.
#[derive(Debug, Clone)]
pub struct ArgParseError {
    pub arg: String,
    pub kind: ErrorKind,
}

/// The declaration of a named argument.
pub struct Argument {
    pub name: String,
    pub description: String,
    pub required: bool,
    pub multiple: bool,
}

/// A parser that knows a list of declared arguments.
pub struct ArgumentParser {
    arguments: Vec<Argument>,
}

/// The result of a successful parse: each key with its values in input order.
#[derive(Debug)]
pub struct ParsedArguments {
    entries: Vec<(String, Vec<String>)>,
}

pub open spec fn strs(v: Seq<String>) -> Seq<Seq<char>> {
    v.map_values(|s: String| s@)
}

pub open spec fn entries_view(v: Seq<(String, Vec<String>)>) -> Entries {
    v.map_values(|p: (String, Vec<String>)| (p.0@, strs(p.1@)))
}

pub open spec fn has_prefix(t: Seq<char>) -> bool {
    t.len() >= 2 && t[0] == '-' && t[1] == '-'
}

pub open spec fn has_delim(t: Seq<char>) -> bool {
    exists|i: int| 0 <= i < t.len() && t[i] == '='
}

/// `i` is the position of the first `=` in `t`.
pub open spec fn is_first_delim(t: Seq<char>, i: int) -> bool {
    &&& 0 <= i < t.len()
    &&& t[i] == '='
    &&& forall|j: int| 0 <= j < i ==> t[j] != '='
}

pub open spec fn delim_index(t: Seq<char>) -> int {
    choose|i: int| is_first_delim(t, i)
}

/// What is wrong with a single token, if anything.
pub open spec fn token_error(t: Seq<char>) -> Option<ErrorKind> {
    if !has_prefix(t) {
        Some(ErrorKind::MalformedPrefix)
    } else if !has_delim(t) {
        Some(ErrorKind::MissingDelimiter)
    } else if delim_index(t) == 2 || delim_index(t) == t.len() - 1 {
        Some(ErrorKind::IncompleteArgument)
    } else {
        None
    }
}

pub open spec fn key_of(t: Seq<char>) -> Seq<char> {
    t.subrange(2, delim_index(t))
}

pub open spec fn value_of(t: Seq<char>) -> Seq<char> {
    t.subrange(delim_index(t) + 1, t.len() as int)
}

pub open spec fn has_key(e: Entries, k: Seq<char>) -> bool {
    exists|i: int| 0 <= i < e.len() && e[i].0 == k
}

/// `i` is the first entry of `e` with key `k`.
pub open spec fn is_key_pos(e: Entries, k: Seq<char>, i: int) -> bool {
    &&& 0 <= i < e.len()
    &&& e[i].0 == k
    &&& forall|j: int| 0 <= j < i ==> e[j].0 != k
}

pub open spec fn key_pos(e: Entries, k: Seq<char>) -> int {
    choose|i: int| is_key_pos(e, k, i)
}

/// The values stored under `k`, if `k` is present.
pub open spec fn lookup(e: Entries, k: Seq<char>) -> Option<Seq<Seq<char>>> {
    if has_key(e, k) {
        Some(e[key_pos(e, k)].1)
    } else {
        None
    }
}

/// Appends `v` to the values of `k`, adding `k` as a new last key if absent.
pub open spec fn add_value(e: Entries, k: Seq<char>, v: Seq<char>) -> Entries {
    if has_key(e, k) {
        let i = key_pos(e, k);
        e.update(i, (k, e[i].1.push(v)))
    } else {
        e.push((k, seq![v]))
    }
}

/// The tokens read in order, stopping at the first malformed one.
pub open spec fn collect(tokens: Seq<Seq<char>>) -> Result<Entries, Failure>
    decreases tokens.len(),
{
    if tokens.len() == 0 {
        Ok(Seq::empty())
    } else {
        match collect(tokens.drop_last()) {
            Err(f) => Err(f),
            Ok(e) => {
                let t = tokens.last();
                match token_error(t) {
                    Some(k) => Err((k, t)),
                    None => Ok(add_value(e, key_of(t), value_of(t))),
                }
            },
        }
    }
}

/// The name of the first required argument that `e` lacks.
pub open spec fn first_missing(args: Seq<Argument>, e: Entries) -> Option<Seq<char>>
    decreases args.len(),
{
    if args.len() == 0 {
        None
    } else if args[0].required && !has_key(e, args[0].name@) {
        Some(args[0].name@)
    } else {
        first_missing(args.drop_first(), e)
    }
}

/// What parsing `tokens` against the declarations `args` yields.
pub open spec fn parse_model(args: Seq<Argument>, tokens: Seq<Seq<char>>) -> Result<
    Entries,
    Failure,
> {
    match collect(tokens) {
        Err(f) => Err(f),
        Ok(e) => match first_missing(args, e) {
            Some(n) => Err((ErrorKind::MissingRequired, n)),
            None => Ok(e),
        },
    }
}

impl View for ParsedArguments {
    type V = Entries;

    closed spec fn view(&self) -> Entries {
        entries_view(self.entries@)
    }
}

impl View for ArgumentParser {
    type V = Seq<Argument>;

    closed spec fn view(&self) -> Seq<Argument> {
        self.arguments@
    }
}

/// The explanation given for each error kind.
pub open spec fn reason_text(k: ErrorKind) -> Seq<char> {
    match k {
        ErrorKind::MalformedPrefix => "does not start with double dashes (--)"@,
        ErrorKind::MissingDelimiter => "does not contain any equal sign (=)"@,
        ErrorKind::IncompleteArgument => "is incomplete or value is missing"@,
        ErrorKind::MissingRequired => "is required"@,
    }
}

impl ArgParseError {
    pub open spec fn failure(&self) -> Failure {
        (self.kind, self.arg@)
    }

    /// A short explanation of the error kind.
    pub fn reason(&self) -> (r: &'static str)
        ensures
            r@ == reason_text(self.kind),
    {
        match self.kind {
            ErrorKind::MalformedPrefix => "does not start with double dashes (--)",
            ErrorKind::MissingDelimiter => "does not contain any equal sign (=)",
            ErrorKind::IncompleteArgument => "is incomplete or value is missing",
            ErrorKind::MissingRequired => "is required",
        }
    }
}

/// Once a prefix of the tokens fails, the whole list fails the same way.
proof fn lemma_error_persists(tokens: Seq<Seq<char>>, n: int)
    requires
        0 <= n <= tokens.len(),
        collect(tokens.subrange(0, n)) is Err,
    ensures
        collect(tokens) == collect(tokens.subrange(0, n)),
    decreases tokens.len() - n,
{
    if n < tokens.len() {
        assert(tokens.subrange(0, n + 1).drop_last() =~= tokens.subrange(0, n));
        lemma_error_persists(tokens, n + 1);
    } else {
        assert(tokens.subrange(0, n) =~= tokens);
    }
}

/// The values of the well-formed tokens whose key is `k`, in token order.
pub open spec fn values_for(tokens: Seq<Seq<char>>, k: Seq<char>) -> Seq<Seq<char>>
    decreases tokens.len(),
{
    if tokens.len() == 0 {
        Seq::empty()
    } else {
        let t = tokens.last();
        let rest = values_for(tokens.drop_last(), k);
        if key_of(t) == k {
            rest.push(value_of(t))
        } else {
            rest
        }
    }
}

proof fn lemma_key_pos_unique(e: Entries, k: Seq<char>, a: int, b: int)
    requires
        is_key_pos(e, k, a),
        is_key_pos(e, k, b),
    ensures
        a == b,
{
    if a < b {
        assert(e[a].0 != k);
    } else if b < a {
        assert(e[b].0 != k);
    }
}

proof fn lemma_key_pos(e: Entries, k: Seq<char>)
    requires
        has_key(e, k),
    ensures
        is_key_pos(e, k, key_pos(e, k)),
    decreases e.len(),
{
    let i = choose|i: int| 0 <= i < e.len() && e[i].0 == k;
    if exists|j: int| 0 <= j < i && e[j].0 == k {
        let sub = e.subrange(0, i);
        let j = choose|j: int| 0 <= j < i && e[j].0 == k;
        assert(sub[j].0 == k);
        lemma_key_pos(sub, k);
        let p = key_pos(sub, k);
        assert(forall|m: int| 0 <= m < i ==> sub[m] == e[m]);
        assert(is_key_pos(e, k, p));
    } else {
        assert(is_key_pos(e, k, i));
    }
}

/// How a lookup sees one added value.
proof fn lemma_lookup_add(e: Entries, k: Seq<char>, v: Seq<char>, q: Seq<char>)
    ensures
        lookup(add_value(e, k, v), q) == if q == k {
            match lookup(e, q) {
                Some(vs) => Some(vs.push(v)),
                None => Some(seq![v]),
            }
        } else {
            lookup(e, q)
        },
{
    let e2 = add_value(e, k, v);
    if has_key(e, k) {
        lemma_key_pos(e, k);
    }
    if has_key(e, q) {
        lemma_key_pos(e, q);
        let p = key_pos(e, q);
        assert(e2[p].0 == q);
        assert(is_key_pos(e2, q, p));
        lemma_key_pos(e2, q);
        lemma_key_pos_unique(e2, q, p, key_pos(e2, q));
    } else if q == k {
        assert(e2[e.len() as int].0 == q);
        lemma_key_pos(e2, q);
        assert(is_key_pos(e2, q, e.len() as int));
        lemma_key_pos_unique(e2, q, e.len() as int, key_pos(e2, q));
    } else {
        assert(!has_key(e2, q)) by {
            if has_key(e2, q) {
                let j = choose|j: int| 0 <= j < e2.len() && e2[j].0 == q;
                assert(e[j].0 == q);
            }
        }
    }
}

/// After a successful read of the tokens, each key holds exactly the values
/// given for it, in the order they were given; a key with no value is absent.
pub proof fn lemma_values_in_order(tokens: Seq<Seq<char>>, k: Seq<char>)
    requires
        collect(tokens) is Ok,
    ensures
        lookup(collect(tokens)->Ok_0, k) == if values_for(tokens, k).len() > 0 {
            Some(values_for(tokens, k))
        } else {
            None::<Seq<Seq<char>>>
        },
    decreases tokens.len(),
{
    if tokens.len() == 0 {
        assert(!has_key(Seq::empty(), k));
    } else {
        let t = tokens.last();
        lemma_values_in_order(tokens.drop_last(), k);
        let e = collect(tokens.drop_last())->Ok_0;
        lemma_lookup_add(e, key_of(t), value_of(t), k);
        if key_of(t) == k {
            if values_for(tokens.drop_last(), k).len() == 0 {
                assert(values_for(tokens.drop_last(), k).push(value_of(t)) =~= seq![value_of(t)]);
            }
        }
    }
}

proof fn lemma_first_token_decides(tokens: Seq<Seq<char>>)
    requires
        tokens.len() > 0,
        token_error(tokens[0]) is Some,
    ensures
        collect(tokens) == Err::<Entries, Failure>((token_error(tokens[0])->0, tokens[0])),
{
    let one = tokens.subrange(0, 1);
    assert(one.drop_last() =~= Seq::<Seq<char>>::empty());
    assert(one.last() == tokens[0]);
    assert(collect(Seq::<Seq<char>>::empty()) == Ok::<Entries, Failure>(Seq::empty()));
    assert(collect(one) == Err::<Entries, Failure>((token_error(tokens[0])->0, tokens[0])));
    lemma_error_persists(tokens, 1);
}

/// A token list whose first token does not start with `--` fails on that
/// token with `MalformedPrefix`.
pub proof fn lemma_malformed_prefix(args: Seq<Argument>, tokens: Seq<Seq<char>>)
    requires
        tokens.len() > 0,
        !has_prefix(tokens[0]),
    ensures
        parse_model(args, tokens) == Err::<Entries, Failure>(
            (ErrorKind::MalformedPrefix, tokens[0]),
        ),
{
    lemma_first_token_decides(tokens);
}

/// A token list whose first token starts with `--` but holds no `=` fails
/// on that token with `MissingDelimiter`.
pub proof fn lemma_missing_delimiter(args: Seq<Argument>, tokens: Seq<Seq<char>>)
    requires
        tokens.len() > 0,
        has_prefix(tokens[0]),
        forall|i: int| 0 <= i < tokens[0].len() ==> tokens[0][i] != '=',
    ensures
        parse_model(args, tokens) == Err::<Entries, Failure>(
            (ErrorKind::MissingDelimiter, tokens[0]),
        ),
{
    lemma_first_token_decides(tokens);
}

/// A first token `--=...` (empty key) or `--...=` (empty value) fails with
/// `IncompleteArgument`.
pub proof fn lemma_incomplete(args: Seq<Argument>, tokens: Seq<Seq<char>>, d: int)
    requires
        tokens.len() > 0,
        has_prefix(tokens[0]),
        is_first_delim(tokens[0], d),
        d == 2 || d == tokens[0].len() - 1,
    ensures
        parse_model(args, tokens) == Err::<Entries, Failure>(
            (ErrorKind::IncompleteArgument, tokens[0]),
        ),
{
    let t = tokens[0];
    assert(has_delim(t));
    lemma_key_pos_delim(t, d);
    lemma_first_token_decides(tokens);
}

proof fn lemma_key_pos_delim(t: Seq<char>, d: int)
    requires
        is_first_delim(t, d),
    ensures
        delim_index(t) == d,
{
    let c = delim_index(t);
    assert(is_first_delim(t, c));
    if c < d {
        assert(t[c] != '=');
    } else if d < c {
        assert(t[d] != '=');
    }
}

proof fn lemma_first_missing(args: Seq<Argument>, e: Entries)
    ensures
        first_missing(args, e) is None <==> forall|i: int|
            0 <= i < args.len() && (#[trigger] args[i]).required ==> has_key(e, args[i].name@),
    decreases args.len(),
{
    if args.len() > 0 {
        lemma_first_missing(args.drop_first(), e);
        assert(forall|i: int| 0 < i < args.len() ==> args[i] == args.drop_first()[i - 1]);
    }
}

/// Once the tokens read well, parsing fails with `MissingRequired` exactly
/// when some required argument was not given, and otherwise returns what
/// was read.
pub proof fn lemma_required(args: Seq<Argument>, tokens: Seq<Seq<char>>)
    requires
        collect(tokens) is Ok,
    ensures
        (forall|i: int|
            0 <= i < args.len() && (#[trigger] args[i]).required ==> has_key(
                collect(tokens)->Ok_0,
                args[i].name@,
            )) ==> parse_model(args, tokens) == collect(tokens),
        (exists|i: int|
            0 <= i < args.len() && (#[trigger] args[i]).required && !has_key(
                collect(tokens)->Ok_0,
                args[i].name@,
            )) ==> parse_model(args, tokens) is Err && parse_model(args, tokens)->Err_0.0
            == ErrorKind::MissingRequired,
{
    lemma_first_missing(args, collect(tokens)->Ok_0);
}

/// Parsing depends on the tokens' text alone: two token lists with the same
/// text give the same result.
pub proof fn lemma_parse_deterministic(args: Seq<Argument>, a: Seq<String>, b: Seq<String>)
    requires
        strs(a) == strs(b),
    ensures
        parse_model(args, strs(a)) == parse_model(args, strs(b)),
{
}

/// Position of the first `=` in `t`.
fn find_delim(t: &str) -> (r: Option<usize>)
    ensures
        match r {
            Some(i) => is_first_delim(t@, i as int),
            None => !has_delim(t@),
        },
{
    let n = t.unicode_len();
    let mut i: usize = 0;
    while i < n
        invariant
            n == t@.len(),
            0 <= i <= n,
            forall|j: int| 0 <= j < i ==> t@[j] != '=',
        decreases n - i,
    {
        if t.get_char(i) == '=' {
            return Some(i);
        }
        i = i + 1;
    }
    None
}

/// Checks one token; on success gives the position of its first `=`.
fn check_token(t: &String) -> (r: Result<usize, ErrorKind>)
    ensures
        match r {
            Ok(i) => token_error(t@) is None && is_first_delim(t@, i as int) && i as int
                == delim_index(t@),
            Err(k) => token_error(t@) == Some(k),
        },
{
    let s = t.as_str();
    let n = s.unicode_len();
    if n < 2 || s.get_char(0) != '-' || s.get_char(1) != '-' {
        return Err(ErrorKind::MalformedPrefix);
    }
    match find_delim(s) {
        None => Err(ErrorKind::MissingDelimiter),
        Some(i) => {
            proof {
                assert(has_delim(t@));
                assert(is_first_delim(t@, delim_index(t@)));
                if delim_index(t@) < i {
                    assert(t@[delim_index(t@)] != '=');
                } else if delim_index(t@) > i {
                    assert(t@[i as int] != '=');
                }
            }
            if i == 2 || i == n - 1 {
                Err(ErrorKind::IncompleteArgument)
            } else {
                Ok(i)
            }
        },
    }
}

/// Index of the first entry with key `key`.
fn entry_index(entries: &Vec<(String, Vec<String>)>, key: &String) -> (r: Option<usize>)
    ensures
        match r {
            Some(i) => is_key_pos(entries_view(entries@), key@, i as int) && i as int == key_pos(
                entries_view(entries@),
                key@,
            ),
            None => !has_key(entries_view(entries@), key@),
        },
{
    let ghost e = entries_view(entries@);
    let mut i: usize = 0;
    while i < entries.len()
        invariant
            e == entries_view(entries@),
            0 <= i <= entries.len(),
            forall|j: int| 0 <= j < i ==> e[j].0 != key@,
        decreases entries.len() - i,
    {
        if entries[i].0 == *key {
            proof {
                assert(is_key_pos(e, key@, i as int));
                let p = key_pos(e, key@);
                assert(is_key_pos(e, key@, p));
                if p < i {
                    assert(e[p].0 != key@);
                } else if p > i {
                    assert(e[i as int].0 != key@);
                }
            }
            return Some(i);
        }
        i = i + 1;
    }
    None
}

/// Every key holds at least one value.
pub open spec fn values_non_empty(e: Entries) -> bool {
    forall|k: int| 0 <= k < e.len() ==> (#[trigger] e[k]).1.len() > 0
}

/// No key occurs twice.
pub open spec fn keys_distinct(e: Entries) -> bool {
    forall|i: int, j: int| 0 <= i < j < e.len() ==> (#[trigger] e[i]).0 != (#[trigger] e[j]).0
}

impl ParsedArguments {
    #[verifier::type_invariant]
    spec fn inv(&self) -> bool {
        &&& values_non_empty(entries_view(self.entries@))
        &&& keys_distinct(entries_view(self.entries@))
    }

    /// The values given for `key`, in input order; never an empty list.
    pub fn get(&self, key: &str) -> (r: Option<&Vec<String>>)
        ensures
            match r {
                Some(v) => lookup(self@, key@) == Some(strs(v@)) && v@.len() > 0,
                None => lookup(self@, key@) is None,
            },
    {
        proof {
            use_type_invariant(self);
        }
        let k = key.to_owned();
        match entry_index(&self.entries, &k) {
            Some(i) => Some(&self.entries[i].1),
            None => None,
        }
    }

    /// The number of distinct keys.
    pub fn len(&self) -> (r: usize)
        ensures
            r == self@.len(),
    {
        self.entries.len()
    }

    /// Whether no key was given.
    pub fn is_empty(&self) -> (r: bool)
        ensures
            r == (self@.len() == 0),
    {
        self.entries.len() == 0
    }

    /// The `i`-th key, in the order keys were first seen.
    pub fn key(&self, i: usize) -> (r: &String)
        requires
            i < self@.len(),
        ensures
            r@ == self@[i as int].0,
    {
        &self.entries[i].0
    }
}

impl ArgumentParser {
    /// A parser with no declared arguments.
    pub fn new() -> (r: ArgumentParser)
        ensures
            r@ == Seq::<Argument>::empty(),
    {
        ArgumentParser { arguments: Vec::new() }
    }

    /// Declares one more argument.
    pub fn add_argument(&mut self, arg: Argument)
        ensures
            final(self)@ == old(self)@.push(arg),
    {
        self.arguments.push(arg);
    }

    /// Parses `--key=value` tokens, then checks that every required
    /// argument was given.
    pub fn parse_args(&self, args: Vec<String>) -> (r: Result<ParsedArguments, ArgParseError>)
        ensures
            match r {
                Ok(p) => parse_model(self@, strs(args@)) == Ok::<Entries, Failure>(p@)
                    && keys_distinct(p@) && values_non_empty(p@),
                Err(e) => parse_model(self@, strs(args@)) == Err::<Entries, Failure>(e.failure()),
            },
    {
        let ghost tokens = strs(args@);
        let mut entries: Vec<(String, Vec<String>)> = Vec::new();
        let mut i: usize = 0;
        assert(tokens.subrange(0, 0) =~= Seq::<Seq<char>>::empty());
        assert(entries_view(entries@) =~= Seq::empty());
        while i < args.len()
            invariant
                tokens == strs(args@),
                0 <= i <= args.len(),
                collect(tokens.subrange(0, i as int)) == Ok::<Entries, Failure>(
                    entries_view(entries@),
                ),
                values_non_empty(entries_view(entries@)),
                keys_distinct(entries_view(entries@)),
            decreases args.len() - i,
        {
            let arg = &args[i];
            proof {
                assert(tokens.subrange(0, i + 1).drop_last() =~= tokens.subrange(0, i as int));
                assert(tokens.subrange(0, i + 1).last() == arg@);
            }
            match check_token(arg) {
                Err(kind) => {
                    proof {
                        lemma_error_persists(tokens, i + 1);
                    }
                    return Err(ArgParseError { arg: arg.clone(), kind });
                },
                Ok(eq) => {
                    let n = arg.as_str().unicode_len();
                    let key = arg.substring(2, eq);
                    let value = arg.substring(eq + 1, n);
                    assert(key@ == key_of(arg@));
                    assert(value@ == value_of(arg@));
                    let ghost e = entries_view(entries@);
                    match entry_index(&entries, &key) {
                        Some(j) => {
                            let ghost before = entries@;
                            let mut pair = entries.remove(j);
                            pair.1.push(value);
                            entries.insert(j, pair);
                            proof {
                                assert(entries@ =~= before.update(j as int, pair));
                                assert(has_key(e, key@));
                                assert(pair.0@ == key@);
                                assert(key_pos(e, key@) == j);
                                assert(strs(pair.1@) =~= e[j as int].1.push(value@));
                                assert(entries_view(entries@) =~= add_value(e, key@, value@));
                            }
                        },
                        None => {
                            let ghost before = entries@;
                            let vals = vec![value];
                            assert(strs(vals@) =~= seq![value@]);
                            entries.push((key, vals));
                            proof {
                                assert(entries@ =~= before.push((key, vals)));
                                assert(entries_view(entries@) =~= add_value(e, key@, value@));
                            }
                        },
                    }
                },
            }
            i = i + 1;
        }
        assert(tokens.subrange(0, args.len() as int) =~= tokens);
        let ghost e = entries_view(entries@);
        let mut j: usize = 0;
        assert(self@.subrange(0, self@.len() as int) =~= self@);
        while j < self.arguments.len()
            invariant
                tokens == strs(args@),
                e == entries_view(entries@),
                values_non_empty(e),
                keys_distinct(e),
                collect(tokens) == Ok::<Entries, Failure>(e),
                0 <= j <= self.arguments.len(),
                first_missing(self@, e) == first_missing(
                    self@.subrange(j as int, self@.len() as int),
                    e,
                ),
            decreases self.arguments.len() - j,
        {
            let a = &self.arguments[j];
            proof {
                let rest = self@.subrange(j as int, self@.len() as int);
                assert(rest.drop_first() =~= self@.subrange(j + 1, self@.len() as int));
                assert(rest[0] == *a);
            }
            if a.required && entry_index(&entries, &a.name).is_none() {
                proof {
                    let rest = self@.subrange(j as int, self@.len() as int);
                    assert(!has_key(e, a.name@));
                    assert(first_missing(rest, e) == Some(a.name@));
                }
                return Err(ArgParseError { arg: a.name.clone(), kind: ErrorKind::MissingRequired });
            }
            j = j + 1;
        }
        assert(self@.subrange(j as int, self@.len() as int) =~= Seq::<Argument>::empty());
        Ok(ParsedArguments { entries })
    }
}

} // verus!
