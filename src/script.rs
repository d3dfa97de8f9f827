//! Text helpers: the common table prefix of a site, comma-separated lists,
//! and the login script handed to analysis clients.
use vstd::prelude::*;
use crate::aggregate::{lemma_text_in_push, text_in, SiteTables};
use crate::dispatch::texts;
use crate::crypto::{name_gives_nonce, open_token, opened_token, token_nonce};
use crate::models::TokenManager;
use crate::orchestrate::has_nonce;

verus! {

/// The text before the first `.` of `t`, when `t` has one.
pub open spec fn dot_prefix(t: Seq<char>) -> Option<Seq<char>>
    decreases t.len(),
{
    if t.len() == 0 {
        None
    } else if t[0] == '.' {
        Some(Seq::empty())
    } else {
        match dot_prefix(t.drop_first()) {
            Some(p) => Some(seq![t[0]] + p),
            None => None,
        }
    }
}

/// The prefixes of those names in `ts` that have one.
pub open spec fn prefixes_of(ts: Set<Seq<char>>) -> Set<Seq<char>> {
    Set::new(|p: Seq<char>| exists|t: Seq<char>| ts.contains(t) && dot_prefix(t) == Some(p))
}

/// The prefix shared by all dotted table names of `site`, when they share
/// exactly one; otherwise `default` (also when the site is unknown or none of
/// its names has a dot).
pub open spec fn tables_prefix(m: Map<Seq<char>, Set<Seq<char>>>, site: Seq<char>, default: Seq<char>) -> Seq<char> {
    if m.contains_key(site) && exists|p: Seq<char>| prefixes_of(m[site]) == set![p] {
        choose|p: Seq<char>| prefixes_of(m[site]) == set![p]
    } else {
        default
    }
}

/// The text before the first `.` of `t`, when `t` has one.
pub fn split_prefix(t: &String) -> (r: Option<String>)
    ensures
        r is None <==> dot_prefix(t@) is None,
        r matches Some(p) ==> dot_prefix(t@) == Some(p@),
{
    let s = t.as_str();
    let n = s.unicode_len();
    let mut i: usize = 0;
    while i < n
        invariant
            0 <= i <= n,
            n == t@.len(),
            s@ == t@,
            forall|j: int| 0 <= j < i ==> t@[j] != '.',
        decreases n - i,
    {
        if s.get_char(i) == '.' {
            let p = s.substring_char(0, i).to_owned();
            proof {
                lemma_dot_prefix_at(t@, i as int);
            }
            return Some(p);
        }
        i = i + 1;
    }
    proof {
        lemma_no_dot(t@);
    }
    None
}

proof fn lemma_dot_prefix_at(t: Seq<char>, i: int)
    requires
        0 <= i < t.len(),
        t[i] == '.',
        forall|j: int| 0 <= j < i ==> t[j] != '.',
    ensures
        dot_prefix(t) == Some(t.take(i)),
    decreases i,
{
    if i > 0 {
        let r = t.drop_first();
        assert forall|j: int| 0 <= j < i - 1 implies r[j] != '.' by {
            assert(r[j] == t[j + 1]);
        }
        lemma_dot_prefix_at(r, i - 1);
        assert(seq![t[0]] + r.take(i - 1) =~= t.take(i));
    } else {
        assert(t.take(0) =~= Seq::<char>::empty());
    }
}

proof fn lemma_no_dot(t: Seq<char>)
    requires
        forall|j: int| 0 <= j < t.len() ==> t[j] != '.',
    ensures
        dot_prefix(t) is None,
    decreases t.len(),
{
    if t.len() > 0 {
        let r = t.drop_first();
        assert forall|j: int| 0 <= j < r.len() implies r[j] != '.' by {
            assert(r[j] == t[j + 1]);
        }
        lemma_no_dot(r);
    }
}

/// The table prefix of a site: the text before the first `.` that all of its
/// dotted table names share, or `default` when they do not share one, when
/// none is dotted, or when the site is unknown.
pub fn fetch_tables_prefix(bridgehead_tables: &SiteTables, bridgehead: &str, default: &str) -> (r: String)
    requires
        bridgehead_tables.wf(),
    ensures
        r@ == tables_prefix(bridgehead_tables@, bridgehead@, default@),
{
    let ghost m = bridgehead_tables@;
    let ghost site = bridgehead@;
    match bridgehead_tables.tables_of(bridgehead) {
        None => default.to_owned(),
        Some(set) => {
            let ghost ts = m[site];
            let mut prefix: Option<String> = None;
            let mut i: usize = 0;
            while i < set.len()
                invariant
                    0 <= i <= set.len(),
                    m == bridgehead_tables@,
                    site == bridgehead@,
                    m.contains_key(site),
                    ts == m[site],
                    forall|t: Seq<char>| ts.contains(t) <==> #[trigger] text_in(set@, t),
                    prefix is None ==> forall|j: int| 0 <= j < i ==> dot_prefix(#[trigger] set@[j]@) is None,
                    prefix matches Some(p) ==> {
                        &&& forall|j: int| 0 <= j < i ==> (#[trigger] dot_prefix(set@[j]@)) is None || dot_prefix(set@[j]@) == Some(p@)
                        &&& exists|j: int| 0 <= j < i && (#[trigger] dot_prefix(set@[j]@)) == Some(p@)
                    },
                decreases set.len() - i,
            {
                if let Some(current) = split_prefix(&set[i]) {
                    match &prefix {
                        Some(existing) => {
                            if !(*existing == current) {
                                proof {
                                    let j = choose|j: int| 0 <= j < i && (#[trigger] dot_prefix(set@[j]@)) == Some(existing@);
                                    assert(text_in(set@, set@[j]@));
                                    assert(text_in(set@, set@[i as int]@));
                                    assert(prefixes_of(ts).contains(existing@));
                                    assert(prefixes_of(ts).contains(current@));
                                    assert forall|p: Seq<char>| prefixes_of(ts) != set![p] by {
                                        if prefixes_of(ts) == set![p] {
                                            assert(set![p].contains(existing@));
                                            assert(set![p].contains(current@));
                                        }
                                    }
                                    assert(!(exists|p: Seq<char>| prefixes_of(ts) == set![p]));
                                }
                                return default.to_owned();
                            }
                        },
                        None => {
                            prefix = Some(current);
                        },
                    }
                }
                i = i + 1;
            }
            match prefix {
                Some(p) => {
                    proof {
                        assert forall|q: Seq<char>| prefixes_of(ts).contains(q) <==> q == p@ by {
                            if prefixes_of(ts).contains(q) {
                                let t = choose|t: Seq<char>| ts.contains(t) && dot_prefix(t) == Some(q);
                                assert(text_in(set@, t));
                                let j = choose|j: int| 0 <= j < set@.len() && (#[trigger] set@[j])@ == t;
                                assert(dot_prefix(set@[j]@) == Some(q));
                            }
                            if q == p@ {
                                let j = choose|j: int| 0 <= j < i && (#[trigger] dot_prefix(set@[j]@)) == Some(p@);
                                assert(text_in(set@, set@[j]@));
                                assert(ts.contains(set@[j]@));
                            }
                        }
                        assert(prefixes_of(ts) =~= set![p@]);
                        let c = choose|c: Seq<char>| prefixes_of(ts) == set![c];
                        assert(set![c].contains(p@));
                    }
                    p
                },
                None => {
                    proof {
                        assert forall|q: Seq<char>| !prefixes_of(ts).contains(q) by {
                            if prefixes_of(ts).contains(q) {
                                let t = choose|t: Seq<char>| ts.contains(t) && dot_prefix(t) == Some(q);
                                assert(text_in(set@, t));
                                let j = choose|j: int| 0 <= j < set@.len() && (#[trigger] set@[j])@ == t;
                                assert(dot_prefix(set@[j]@) is None);
                            }
                        }
                        assert forall|p: Seq<char>| prefixes_of(ts) != set![p] by {
                            assert(set![p].contains(p));
                        }
                    }
                    default.to_owned()
                },
            }
        },
    }
}

/// The characters with the Unicode White_Space property, as
/// `char::is_whitespace` recognises them.
pub open spec fn is_white_space(c: char) -> bool {
    ('\u{9}' <= c && c <= '\u{d}') || c == ' ' || c == '\u{85}' || c == '\u{a0}' || c == '\u{1680}' || (
    '\u{2000}' <= c && c <= '\u{200a}') || c == '\u{2028}' || c == '\u{2029}' || c == '\u{202f}' || c
        == '\u{205f}' || c == '\u{3000}'
}

/// `s` without its leading white space.
pub open spec fn trim_leading(s: Seq<char>) -> Seq<char>
    decreases s.len(),
{
    if s.len() > 0 && is_white_space(s[0]) {
        trim_leading(s.drop_first())
    } else {
        s
    }
}

/// `s` without its trailing white space.
pub open spec fn trim_trailing(s: Seq<char>) -> Seq<char>
    decreases s.len(),
{
    if s.len() > 0 && is_white_space(s.last()) {
        trim_trailing(s.drop_last())
    } else {
        s
    }
}

/// `s` without leading and trailing white space.
pub open spec fn trimmed(s: Seq<char>) -> Seq<char> {
    trim_trailing(trim_leading(s))
}

/// Relies on `str::trim`: removes the leading and trailing characters for
/// which `char::is_whitespace` holds.
#[verifier::external_body]
fn trim_text(s: &str) -> (r: String)
    ensures
        r@ == trimmed(s@),
{
    s.trim().to_string()
}

/// The pieces of `s` between commas, in order; an empty text is one empty
/// piece.
pub open spec fn split_commas(s: Seq<char>) -> Seq<Seq<char>>
    decreases s.len(),
{
    if s.len() == 0 {
        seq![Seq::empty()]
    } else {
        let prev = split_commas(s.drop_last());
        if s.last() == ',' {
            prev.push(Seq::empty())
        } else {
            prev.update(prev.len() - 1, prev.last().push(s.last()))
        }
    }
}

proof fn lemma_split_commas_nonempty(s: Seq<char>)
    ensures
        split_commas(s).len() > 0,
    decreases s.len(),
{
    if s.len() > 0 {
        lemma_split_commas_nonempty(s.drop_last());
    }
}

/// Splits a comma-separated list and trims each piece.
pub fn split_and_trim(input: &str) -> (r: Vec<String>)
    ensures
        r@.len() == split_commas(input@).len(),
        forall|i: int| 0 <= i < r@.len() ==> (#[trigger] r@[i])@ == trimmed(split_commas(input@)[i]),
{
    let n = input.unicode_len();
    let mut out: Vec<String> = Vec::new();
    let mut start: usize = 0;
    let mut i: usize = 0;
    while i < n
        invariant
            0 <= start <= i <= n,
            n == input@.len(),
            out@.len() + 1 == split_commas(input@.take(i as int)).len(),
            split_commas(input@.take(i as int)).last() == input@.subrange(start as int, i as int),
            forall|k: int| 0 <= k < out@.len() ==> (#[trigger] out@[k])@ == trimmed(split_commas(input@.take(i as int))[k]),
        decreases n - i,
    {
        let ghost pre = input@.take(i as int);
        let ghost next = input@.take(i + 1);
        assert(next.drop_last() =~= pre);
        assert(next.last() == input@[i as int]);
        proof {
            lemma_split_commas_nonempty(pre);
        }
        if input.get_char(i) == ',' {
            let piece = trim_text(input.substring_char(start, i));
            out.push(piece);
            start = i + 1;
            assert(input@.subrange(start as int, i + 1) =~= Seq::<char>::empty());
        } else {
            assert(input@.subrange(start as int, i + 1) =~= input@.subrange(start as int, i as int).push(input@[i as int]));
        }
        i = i + 1;
    }
    proof {
        lemma_split_commas_nonempty(input@.take(i as int));
    }
    let last = trim_text(input.substring_char(start, n));
    out.push(last);
    assert(input@.take(n as int) =~= input@);
    out
}

/// The text that opens every login script.
pub open spec fn script_header() -> Seq<char> {
    "
        library(DSI)
        library(DSOpal)
        library(dsBaseClient)

        builder <- DSI::newDSLoginBuilder(.silent = FALSE)
        "@
}

/// The text that closes every login script.
pub open spec fn script_footer() -> Seq<char> {
    "
        logindata <- builder$build()
        connections <- DSI::datashield.login(logins = logindata, assign = TRUE, symbol = 'D')
        "@
}

/// Each line followed by a line break.
pub open spec fn joined_lines(lines: Seq<String>) -> Seq<char>
    decreases lines.len(),
{
    if lines.len() == 0 {
        Seq::empty()
    } else {
        joined_lines(lines.drop_last()) + lines.last()@ + "\n"@
    }
}

/// The login script for the given builder lines.
pub fn generate_r_script(script_lines: Vec<String>) -> (r: String)
    ensures
        r@ == script_header() + joined_lines(script_lines@) + script_footer(),
{
    let mut builder_script = String::from_str(
        "
        library(DSI)
        library(DSOpal)
        library(dsBaseClient)

        builder <- DSI::newDSLoginBuilder(.silent = FALSE)
        ",
    );
    let mut i: usize = 0;
    while i < script_lines.len()
        invariant
            0 <= i <= script_lines.len(),
            builder_script@ == script_header() + joined_lines(script_lines@.take(i as int)),
        decreases script_lines.len() - i,
    {
        builder_script.append(script_lines[i].as_str());
        builder_script.append("\n");
        assert(script_lines@.take(i + 1).drop_last() =~= script_lines@.take(i as int));
        i = i + 1;
    }
    assert(script_lines@.take(i as int) =~= script_lines@);
    builder_script.append(
        "
        logindata <- builder$build()
        connections <- DSI::datashield.login(logins = logindata, assign = TRUE, symbol = 'D')
        ",
    );
    builder_script
}

/// Every table name that any site reported.
pub open spec fn all_tables(m: Map<Seq<char>, Set<Seq<char>>>) -> Set<Seq<char>> {
    Set::new(|t: Seq<char>| exists|s: Seq<char>| m.contains_key(s) && m[s].contains(t))
}

/// `v` names each element of `set` exactly once, and nothing else.
pub open spec fn lists_exactly(v: Seq<String>, set: Set<Seq<char>>) -> bool {
    &&& forall|t: Seq<char>| set.contains(t) <==> #[trigger] text_in(v, t)
    &&& forall|i: int, j: int| 0 <= i < j < v.len() ==> (#[trigger] v[i])@ != (#[trigger] v[j])@
}

/// The names of `ts`, each in double quotes, separated by `, `.
pub open spec fn quoted_items(ts: Seq<String>) -> Seq<char>
    decreases ts.len(),
{
    if ts.len() == 0 {
        Seq::empty()
    } else if ts.len() == 1 {
        "\""@ + ts[0]@ + "\""@
    } else {
        quoted_items(ts.drop_last()) + ", \""@ + ts.last()@ + "\""@
    }
}

/// The server name of a site address: its second dot-separated label, or
/// the whole address when it has no dot.
pub open spec fn server_name(bk: Seq<char>) -> Seq<char> {
    match dot_prefix(bk) {
        None => bk,
        Some(first) => {
            let rest = bk.skip(first.len() + 1 as int);
            match dot_prefix(rest) {
                Some(p) => p,
                None => rest,
            }
        },
    }
}

/// The secret of a stored row, when there is a row and it can be opened.
pub open spec fn record_secret(rec: Option<TokenManager>, key: Seq<char>) -> Option<Seq<char>> {
    match rec {
        Some(r) => if name_gives_nonce(r.token_name@) {
            opened_token(r.token@, token_nonce(r.token_name@), key)
        } else {
            None
        },
        None => None,
    }
}

pub open spec fn no_token_line(b: Seq<char>) -> Seq<char> {
    "\n # Token not available for bridgehead '"@ + b + "'"@
}

pub open spec fn missing_line(b: Seq<char>, missing: Seq<String>) -> Seq<char> {
    "\n # Tables not available for bridgehead '"@ + b + "': {"@ + quoted_items(missing) + "}"@
}

pub open spec fn append_line(server: Seq<char>, bk: Seq<char>, token: Seq<char>, table: Seq<char>) -> Seq<char> {
    "builder$append(server='"@ + server + "', url='https://"@ + bk + "/opal/', token='"@ + token
        + "', table='"@ + table + "', driver='OpalDriver')"@
}

/// The script lines for one site: a note when no usable token is stored;
/// otherwise, when the site reported tables, a note on the tables it lacks
/// (if any), one builder line per table, and an empty line.
pub open spec fn site_block(
    b: Seq<char>,
    rec: Option<TokenManager>,
    key: Seq<char>,
    m: Map<Seq<char>, Set<Seq<char>>>,
    listed: Seq<String>,
    missing: Seq<String>,
) -> Seq<Seq<char>> {
    match record_secret(rec, key) {
        None => seq![no_token_line(b)],
        Some(token) => if !m.contains_key(b) {
            Seq::empty()
        } else {
            let r = rec->0;
            (if missing.len() > 0 {
                seq![missing_line(b, missing)]
            } else {
                Seq::empty()
            }) + listed.map_values(|t: String| append_line(server_name(r.bk@), r.bk@, token, t@)) + seq![
                Seq::empty(),
            ]
        },
    }
}

/// The script lines for the first `n` sites.
pub open spec fn script_lines(
    bridgeheads: Seq<String>,
    records: Seq<Option<TokenManager>>,
    key: Seq<char>,
    m: Map<Seq<char>, Set<Seq<char>>>,
    listed: Seq<Seq<String>>,
    missing: Seq<Seq<String>>,
    n: int,
) -> Seq<Seq<char>>
    decreases n,
{
    if n <= 0 {
        Seq::empty()
    } else {
        script_lines(bridgeheads, records, key, m, listed, missing, n - 1) + site_block(
            bridgeheads[n - 1]@,
            records[n - 1],
            key,
            m,
            listed[n - 1],
            missing[n - 1],
        )
    }
}

/// The user's login script, or a notice when there is no line to put in it.
pub open spec fn user_script(lines: Seq<Seq<char>>) -> Seq<char> {
    if lines.len() == 0 {
        "No records found for the given project and user."@
    } else {
        script_header() + joined_texts(lines) + script_footer()
    }
}

/// Each text followed by a line break.
pub open spec fn joined_texts(lines: Seq<Seq<char>>) -> Seq<char>
    decreases lines.len(),
{
    if lines.len() == 0 {
        Seq::empty()
    } else {
        joined_texts(lines.drop_last()) + lines.last() + "\n"@
    }
}

/// The listings behind a script are faithful: for each site that reported
/// tables, `listed` names its tables and `missing` the tables other sites
/// reported and it did not, each once.
pub open spec fn faithful_listings(
    bridgeheads: Seq<String>,
    records: Seq<Option<TokenManager>>,
    key: Seq<char>,
    m: Map<Seq<char>, Set<Seq<char>>>,
    listed: Seq<Seq<String>>,
    missing: Seq<Seq<String>>,
    n: int,
) -> bool {
    &&& listed.len() == n
    &&& missing.len() == n
    &&& forall|i: int|
        0 <= i < n && m.contains_key(#[trigger] bridgeheads[i]@) && record_secret(records[i], key) is Some ==> {
        &&& lists_exactly(listed[i], m[bridgeheads[i]@])
        &&& lists_exactly(missing[i], all_tables(m).difference(m[bridgeheads[i]@]))
    }
}

proof fn lemma_dot_prefix_shape(t: Seq<char>)
    ensures
        dot_prefix(t) matches Some(p) ==> p.len() < t.len() && t[p.len() as int] == '.' && p == t.take(
            p.len() as int,
        ),
    decreases t.len(),
{
    if t.len() > 0 && t[0] != '.' {
        lemma_dot_prefix_shape(t.drop_first());
        if let Some(q) = dot_prefix(t.drop_first()) {
            assert(seq![t[0]] + q =~= t.take(q.len() + 1 as int));
        }
    } else if t.len() > 0 {
        assert(t.take(0) =~= Seq::<char>::empty());
    }
}

/// The server name of a site address: its second dot-separated label, or
/// the whole address when it has no dot.
pub fn server_of(bk: &String) -> (r: String)
    ensures
        r@ == server_name(bk@),
{
    match split_prefix(bk) {
        None => bk.clone(),
        Some(first) => {
            proof {
                lemma_dot_prefix_shape(bk@);
            }
            let n = bk.as_str().unicode_len();
            let rest = bk.as_str().substring_char(first.as_str().unicode_len() + 1, n).to_owned();
            assert(rest@ =~= bk@.skip(first@.len() + 1 as int));
            match split_prefix(&rest) {
                Some(p) => p,
                None => rest,
            }
        },
    }
}

/// The names, each in double quotes, separated by `, `.
pub fn quote_items(ts: &Vec<String>) -> (r: String)
    ensures
        r@ == quoted_items(ts@),
{
    let mut out = String::new();
    let mut i: usize = 0;
    while i < ts.len()
        invariant
            0 <= i <= ts.len(),
            out@ == quoted_items(ts@.take(i as int)),
        decreases ts.len() - i,
    {
        let ghost before = out@;
        if i > 0 {
            out.append(", ");
        }
        out.append("\"");
        out.append(ts[i].as_str());
        out.append("\"");
        assert(ts@.take(i + 1).drop_last() =~= ts@.take(i as int));
        if i == 0 {
            assert(before =~= Seq::<char>::empty());
            assert(out@ =~= "\""@ + ts@.take(1)[0]@ + "\""@);
        } else {
            assert(out@ =~= quoted_items(ts@.take(i as int)) + ", \""@ + ts[i as int]@ + "\""@) by {
                reveal_strlit(", ");
                reveal_strlit("\"");
                reveal_strlit(", \"");
            }
        }
        i = i + 1;
    }
    assert(ts@.take(i as int) =~= ts@);
    out
}

fn no_token_text(b: &String) -> (r: String)
    ensures
        r@ == no_token_line(b@),
{
    let mut s = String::from_str("\n # Token not available for bridgehead '");
    s.append(b.as_str());
    s.append("'");
    s
}

fn missing_text(b: &String, missing: &Vec<String>) -> (r: String)
    ensures
        r@ == missing_line(b@, missing@),
{
    let mut s = String::from_str("\n # Tables not available for bridgehead '");
    s.append(b.as_str());
    s.append("': {");
    let q = quote_items(missing);
    s.append(q.as_str());
    s.append("}");
    s
}

fn append_text(server: &String, bk: &String, token: &String, table: &String) -> (r: String)
    ensures
        r@ == append_line(server@, bk@, token@, table@),
{
    let mut s = String::from_str("builder$append(server='");
    s.append(server.as_str());
    s.append("', url='https://");
    s.append(bk.as_str());
    s.append("/opal/', token='");
    s.append(token.as_str());
    s.append("', table='");
    s.append(table.as_str());
    s.append("', driver='OpalDriver')");
    s
}

/// Whether `s` is one of the texts of `v`.
pub fn has_text(v: &Vec<String>, s: &String) -> (r: bool)
    ensures
        r == text_in(v@, s@),
{
    let mut i: usize = 0;
    while i < v.len()
        invariant
            0 <= i <= v.len(),
            forall|j: int| 0 <= j < i ==> (#[trigger] v@[j])@ != s@,
        decreases v.len() - i,
    {
        if v[i] == *s {
            return true;
        }
        i = i + 1;
    }
    false
}

/// Some site among the first `k` of `sites` reported the table `t`.
pub open spec fn reported_by_first(m: Map<Seq<char>, Set<Seq<char>>>, sites: Seq<String>, k: int, t: Seq<char>) -> bool {
    exists|j: int| 0 <= j < k && m.contains_key((#[trigger] sites[j])@) && m[sites[j]@].contains(t)
}

/// Every table name that any site reported, each once.
pub fn all_table_names(tables: &SiteTables) -> (r: Vec<String>)
    requires
        tables.wf(),
    ensures
        lists_exactly(r@, all_tables(tables@)),
{
    let ghost m = tables@;
    let sites = tables.sites();
    let mut out: Vec<String> = Vec::new();
    let mut k: usize = 0;
    while k < sites.len()
        invariant
            0 <= k <= sites.len(),
            m == tables@,
            tables.wf(),
            forall|t: Seq<char>| #[trigger] text_in(out@, t) <==> reported_by_first(m, sites@, k as int, t),
            forall|i: int, j: int| 0 <= i < j < out@.len() ==> (#[trigger] out@[i])@ != (#[trigger] out@[j])@,
        decreases sites.len() - k,
    {
        let ghost out0 = out@;
        match tables.tables_of(sites[k].as_str()) {
            None => {
                assert forall|t: Seq<char>| #[trigger] text_in(out@, t) <==> reported_by_first(m, sites@, k + 1, t) by {
                    if reported_by_first(m, sites@, k + 1, t) {
                        let j = choose|j: int| 0 <= j < k + 1 && m.contains_key((#[trigger] sites@[j])@) && m[sites@[j]@].contains(t);
                        assert(reported_by_first(m, sites@, k as int, t));
                    }
                    if reported_by_first(m, sites@, k as int, t) {
                        let j = choose|j: int| 0 <= j < k && m.contains_key((#[trigger] sites@[j])@) && m[sites@[j]@].contains(t);
                        assert(reported_by_first(m, sites@, k + 1, t));
                    }
                }
            },
            Some(ts) => {
                let mut q: usize = 0;
                while q < ts.len()
                    invariant
                        0 <= q <= ts.len(),
                        0 <= k < sites.len(),
                        m == tables@,
                        m.contains_key(sites@[k as int]@),
                        forall|t: Seq<char>| m[sites@[k as int]@].contains(t) <==> #[trigger] text_in(ts@, t),
                        forall|t: Seq<char>| #[trigger] text_in(out@, t) <==> reported_by_first(m, sites@, k as int, t)
                            || text_in(ts@.take(q as int), t),
                        forall|i: int, j: int| 0 <= i < j < out@.len() ==> (#[trigger] out@[i])@ != (#[trigger] out@[j])@,
                    decreases ts.len() - q,
                {
                    let ghost before = out@;
                    assert(ts@.take(q + 1) =~= ts@.take(q as int).push(ts@[q as int]));
                    if !has_text(&out, &ts[q]) {
                        out.push(ts[q].clone());
                        assert forall|t: Seq<char>| #[trigger] text_in(out@, t) <==> text_in(before, t) || ts@[q as int]@ == t by {
                            lemma_text_in_push(before, ts@[q as int], t);
                        }
                        assert forall|i: int, j: int| 0 <= i < j < out@.len() implies (#[trigger] out@[i])@ != (#[trigger] out@[j])@ by {
                            if j == out@.len() - 1 {
                                assert(out@[i] == before[i]);
                                assert(text_in(before, before[i]@));
                            }
                        }
                    } else {
                        assert forall|t: Seq<char>| #[trigger] text_in(out@, t) <==> text_in(before, t) || ts@[q as int]@ == t by {}
                    }
                    assert forall|t: Seq<char>| #[trigger] text_in(out@, t) <==> reported_by_first(m, sites@, k as int, t)
                        || text_in(ts@.take(q + 1), t) by {
                        lemma_text_in_push(ts@.take(q as int), ts@[q as int], t);
                    }
                    q = q + 1;
                }
                assert(ts@.take(q as int) =~= ts@);
                assert forall|t: Seq<char>| #[trigger] text_in(out@, t) <==> reported_by_first(m, sites@, k + 1, t) by {
                    if reported_by_first(m, sites@, k + 1, t) {
                        let j = choose|j: int| 0 <= j < k + 1 && m.contains_key((#[trigger] sites@[j])@) && m[sites@[j]@].contains(t);
                        if j < k {
                            assert(reported_by_first(m, sites@, k as int, t));
                        }
                    }
                    if reported_by_first(m, sites@, k as int, t) {
                        let j = choose|j: int| 0 <= j < k && m.contains_key((#[trigger] sites@[j])@) && m[sites@[j]@].contains(t);
                        assert(reported_by_first(m, sites@, k + 1, t));
                    }
                    if text_in(ts@, t) {
                        assert(reported_by_first(m, sites@, k + 1, t));
                    }
                }
            },
        }
        k = k + 1;
    }
    assert forall|t: Seq<char>| all_tables(m).contains(t) <==> #[trigger] text_in(out@, t) by {
        if all_tables(m).contains(t) {
            let s = choose|s: Seq<char>| m.contains_key(s) && m[s].contains(t);
            let j = choose|j: int| 0 <= j < sites@.len() && (#[trigger] sites@[j])@ == s;
            assert(reported_by_first(m, sites@, k as int, t));
        }
        if text_in(out@, t) {
            let j = choose|j: int| 0 <= j < k && m.contains_key((#[trigger] sites@[j])@) && m[sites@[j]@].contains(t);
            assert(m.contains_key(sites@[j]@) && m[sites@[j]@].contains(t));
        }
    }
    out
}

/// The texts of `all` that are not in `present`, in the order of `all`.
pub fn missing_tables(all: &Vec<String>, present: &Vec<String>) -> (r: Vec<String>)
    requires
        forall|i: int, j: int| 0 <= i < j < all@.len() ==> (#[trigger] all@[i])@ != (#[trigger] all@[j])@,
    ensures
        forall|t: Seq<char>| #[trigger] text_in(r@, t) <==> text_in(all@, t) && !text_in(present@, t),
        forall|i: int, j: int| 0 <= i < j < r@.len() ==> (#[trigger] r@[i])@ != (#[trigger] r@[j])@,
{
    let mut out: Vec<String> = Vec::new();
    let mut i: usize = 0;
    while i < all.len()
        invariant
            0 <= i <= all.len(),
            forall|i: int, j: int| 0 <= i < j < all@.len() ==> (#[trigger] all@[i])@ != (#[trigger] all@[j])@,
            forall|t: Seq<char>| #[trigger] text_in(out@, t) <==> text_in(all@.take(i as int), t) && !text_in(present@, t),
            forall|a: int, b: int| 0 <= a < b < out@.len() ==> (#[trigger] out@[a])@ != (#[trigger] out@[b])@,
        decreases all.len() - i,
    {
        let ghost before = out@;
        assert(all@.take(i + 1) =~= all@.take(i as int).push(all@[i as int]));
        assert forall|t: Seq<char>| #[trigger] text_in(all@.take(i + 1), t) <==> text_in(all@.take(i as int), t) || all@[i as int]@ == t by {
            lemma_text_in_push(all@.take(i as int), all@[i as int], t);
        }
        if !has_text(present, &all[i]) {
            assert(!text_in(before, all@[i as int]@)) by {
                if text_in(before, all@[i as int]@) {
                    let j = choose|j: int| 0 <= j < all@.take(i as int).len() && (#[trigger] all@.take(i as int)[j])@ == all@[i as int]@;
                    assert(all@[j] == all@.take(i as int)[j]);
                }
            }
            out.push(all[i].clone());
            assert forall|t: Seq<char>| #[trigger] text_in(out@, t) <==> text_in(before, t) || all@[i as int]@ == t by {
                lemma_text_in_push(before, all@[i as int], t);
            }
            assert forall|a: int, b: int| 0 <= a < b < out@.len() implies (#[trigger] out@[a])@ != (#[trigger] out@[b])@ by {
                if b == out@.len() - 1 {
                    assert(out@[a] == before[a]);
                    assert(text_in(before, before[a]@));
                }
            }
        }
        i = i + 1;
    }
    assert(all@.take(i as int) =~= all@);
    out
}

proof fn lemma_joined(v: Seq<String>)
    ensures
        joined_lines(v) == joined_texts(texts(v)),
    decreases v.len(),
{
    if v.len() > 0 {
        lemma_joined(v.drop_last());
        assert(texts(v).drop_last() =~= texts(v.drop_last()));
    }
}

proof fn lemma_script_lines_prefix(
    bridgeheads: Seq<String>,
    records: Seq<Option<TokenManager>>,
    key: Seq<char>,
    m: Map<Seq<char>, Set<Seq<char>>>,
    l1: Seq<Seq<String>>,
    x1: Seq<Seq<String>>,
    l2: Seq<Seq<String>>,
    x2: Seq<Seq<String>>,
    n: int,
)
    requires
        forall|j: int| 0 <= j < n ==> l1[j] == l2[j] && x1[j] == x2[j],
    ensures
        script_lines(bridgeheads, records, key, m, l1, x1, n) == script_lines(bridgeheads, records, key, m, l2, x2, n),
    decreases n,
{
    if n > 0 {
        lemma_script_lines_prefix(bridgeheads, records, key, m, l1, x1, l2, x2, n - 1);
    }
}

/// The login script of a user for a project: for each requested site, in
/// order, the lines of `site_block`, built from the site's latest stored row
/// (`records`, one entry per site) and the table names the sites reported.
/// A notice replaces the script when no line results.
pub fn generate_user_script(
    bridgeheads: &Vec<String>,
    tables: &SiteTables,
    records: &Vec<Option<TokenManager>>,
    key: &str,
) -> (r: String)
    requires
        tables.wf(),
        records@.len() == bridgeheads@.len(),
    ensures
        exists|listed: Seq<Seq<String>>, missing: Seq<Seq<String>>|
            faithful_listings(bridgeheads@, records@, key@, tables@, listed, missing, bridgeheads@.len() as int)
                && r@ == user_script(script_lines(bridgeheads@, records@, key@, tables@, listed, missing,
                bridgeheads@.len() as int)),
{
    let ghost m = tables@;
    let all = all_table_names(tables);
    let mut lines: Vec<String> = Vec::new();
    let ghost mut listed: Seq<Seq<String>> = Seq::empty();
    let ghost mut missing: Seq<Seq<String>> = Seq::empty();
    let mut i: usize = 0;
    while i < bridgeheads.len()
        invariant
            0 <= i <= bridgeheads.len(),
            records@.len() == bridgeheads@.len(),
            m == tables@,
            tables.wf(),
            lists_exactly(all@, all_tables(m)),
            faithful_listings(bridgeheads@, records@, key@, m, listed, missing, i as int),
            texts(lines@) == script_lines(bridgeheads@, records@, key@, m, listed, missing, i as int),
        decreases bridgeheads.len() - i,
    {
        let b = &bridgeheads[i];
        let ghost lines0 = texts(lines@);
        let ghost listed0 = listed;
        let ghost missing0 = missing;
        let ghost block: Seq<Seq<char>>;
        let secret: Option<String> = match &records[i] {
            Some(rec) => if has_nonce(&rec.token_name) {
                open_token(rec.token.as_str(), rec.token_name.as_str(), key)
            } else {
                None
            },
            None => None,
        };
        assert(secret matches Some(x) ==> record_secret(records@[i as int], key@) == Some(x@));
        assert(secret is None ==> record_secret(records@[i as int], key@) is None);
        match (secret, &records[i]) {
            (Some(token), Some(rec)) => {
                match tables.tables_of(b.as_str()) {
                    None => {
                        proof {
                            listed = listed.push(Seq::empty());
                            missing = missing.push(Seq::empty());
                        }
                    },
                    Some(ts) => {
                        let miss = missing_tables(&all, &ts);
                        proof {
                            listed = listed.push(ts@);
                            missing = missing.push(miss@);
                        }
                        if miss.len() > 0 {
                            lines.push(missing_text(b, &miss));
                        }
                        let ghost head = texts(lines@);
                        let server = server_of(&rec.bk);
                        let ghost f = |t: String| append_line(server_name(rec.bk@), rec.bk@, token@, t@);
                        let mut k: usize = 0;
                        while k < ts.len()
                            invariant
                                0 <= k <= ts.len(),
                                server@ == server_name(rec.bk@),
                                forall|t: String| #[trigger] f(t) == append_line(server_name(rec.bk@), rec.bk@, token@, t@),
                                texts(lines@) == head + ts@.take(k as int).map_values(f),
                            decreases ts.len() - k,
                        {
                            let line = append_text(&server, &rec.bk, &token, &ts[k]);
                            let ghost before = lines@;
                            lines.push(line);
                            assert(texts(lines@) =~= texts(before).push(line@));
                            assert(f(ts@[k as int]) == line@);
                            assert(ts@.take(k + 1).map_values(f) =~= ts@.take(k as int).map_values(f).push(f(ts@[k as int])));
                            k = k + 1;
                        }
                        assert(ts@.take(k as int) =~= ts@);
                        let ghost before = lines@;
                        lines.push(String::new());
                        assert(texts(lines@) =~= texts(before).push(Seq::<char>::empty()));
                    },
                }
            },
            _ => {
                let ghost before = lines@;
                lines.push(no_token_text(b));
                assert(texts(lines@) =~= texts(before).push(no_token_line(b@)));
                proof {
                    listed = listed.push(Seq::empty());
                    missing = missing.push(Seq::empty());
                }
            },
        }
        proof {
            lemma_script_lines_prefix(bridgeheads@, records@, key@, m, listed0, missing0, listed, missing, i as int);
            assert(texts(lines@) =~= script_lines(bridgeheads@, records@, key@, m, listed, missing, i + 1));
            assert forall|j: int|
                0 <= j < i + 1 && m.contains_key(#[trigger] bridgeheads@[j]@) && record_secret(records@[j], key@) is Some
                implies {
                &&& lists_exactly(listed[j], m[bridgeheads@[j]@])
                &&& lists_exactly(missing[j], all_tables(m).difference(m[bridgeheads@[j]@]))
            } by {
                if j < i {
                    assert(listed[j] == listed0[j]);
                    assert(missing[j] == missing0[j]);
                }
            }
        }
        i = i + 1;
    }
    if lines.len() == 0 {
        String::from_str("No records found for the given project and user.")
    } else {
        proof {
            lemma_joined(lines@);
        }
        generate_r_script(lines)
    }
}

} // verus!
