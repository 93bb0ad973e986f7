//! HTTP requests: parsing the request text and reading its parts.
use vstd::prelude::*;
use crate::table::{StrMap, insert_pairs, lemma_insert_pairs_push};
use crate::text::{
    Sep, split_spec, words_spec, lines_spec, trim_spec, split_at_first, find_spec, to_chars,
    chars_to_string, split_chars, split_whitespace, lines, trim, split_first, find_pattern,
    sub_chars, append_chars, find_char, drop_cr, cr_only_before_lf, law_lines_crlf_as_lf, lemma_split_free,
};

verus! {

/// What a request holds, as text and maps.
pub struct RequestModel {
    pub method: Seq<char>,
    pub path: Seq<char>,
    pub protocol: Seq<char>,
    pub query_params: Map<Seq<char>, Seq<char>>,
    pub params: Map<Seq<char>, Seq<char>>,
    pub headers: Map<Seq<char>, Seq<char>>,
    pub body: Seq<char>,
}

/// The key/value pairs of a query string: its `&`-separated pieces, each cut
/// at its first `=` (a piece without `=` is a key with an empty value).
pub open spec fn query_pairs(qs: Seq<char>) -> Seq<(Seq<char>, Seq<char>)> {
    split_spec(qs, Sep::Char('&')).map_values(|p: Seq<char>| split_at_first(p, '='))
}

/// The map of a query string.
pub open spec fn query_map(qs: Seq<char>) -> Map<Seq<char>, Seq<char>> {
    insert_pairs(Map::empty(), query_pairs(qs))
}

/// The separator between a header's name and its value.
pub open spec fn field_sep() -> Seq<char> {
    seq![':', ' ']
}

/// A header line cut at its first `": "`, if it has one.
pub open spec fn header_field(line: Seq<char>) -> Option<(Seq<char>, Seq<char>)> {
    match find_spec(line, field_sep()) {
        Some(i) => Some((line.take(i), line.skip(i + 2))),
        None => None,
    }
}

/// For each line, whether it is empty.
pub open spec fn blank_marks(ls: Seq<Seq<char>>) -> Seq<bool> {
    Seq::new(ls.len(), |i: int| ls[i].len() == 0)
}

/// The position of the first empty line, which ends the header section, or
/// the number of lines when there is none.
pub open spec fn body_start(ls: Seq<Seq<char>>) -> int {
    match blank_marks(ls).index_of_first(true) {
        Some(k) => k,
        None => ls.len() as int,
    }
}

/// The header map of the lines that follow the request line: the lines
/// before the first empty line that hold `": "`.
pub open spec fn header_map(rest: Seq<Seq<char>>) -> Map<Seq<char>, Seq<char>> {
    insert_pairs(
        Map::empty(),
        rest.take(body_start(rest)).filter_map(|l: Seq<char>| header_field(l)),
    )
}

/// The lines after the first empty line.
pub open spec fn body_lines(rest: Seq<Seq<char>>) -> Seq<Seq<char>> {
    if body_start(rest) < rest.len() {
        rest.skip(body_start(rest) + 1)
    } else {
        Seq::empty()
    }
}

/// The non-empty lines of `ls`, each followed by a newline, one after the
/// other.
pub open spec fn joined_lines(ls: Seq<Seq<char>>) -> Seq<char> {
    ls.filter(|l: Seq<char>| l.len() > 0).map_values(|l: Seq<char>| l.push('\n')).flatten()
}

/// One more line adds itself and a newline, unless it is empty.
pub proof fn lemma_joined_lines_push(ls: Seq<Seq<char>>, l: Seq<char>)
    ensures
        joined_lines(ls.push(l)) == if l.len() > 0 {
            joined_lines(ls) + l.push('\n')
        } else {
            joined_lines(ls)
        },
{
    let f = |x: Seq<char>| x.len() > 0;
    let g = |x: Seq<char>| x.push('\n');
    ls.lemma_filter_push(l, f);
    if l.len() > 0 {
        let a = ls.filter(f);
        assert(a.push(l).map_values(g) =~= a.map_values(g).push(l.push('\n')));
        a.map_values(g).lemma_flatten_push(l.push('\n'));
    }
}

/// The request that `s` holds, when its first line has at least three words:
/// method, target and protocol. The target is cut at its first `?` into path
/// and query string; the lines up to the first empty line give the headers,
/// the non-empty lines after it the body, trimmed.
pub open spec fn parse_spec(s: Seq<char>) -> Option<RequestModel> {
    let ls = lines_spec(s);
    if ls.len() == 0 {
        None
    } else {
        let w = words_spec(ls[0]);
        if w.len() < 3 {
            None
        } else {
            let target = split_at_first(w[1], '?');
            let rest = ls.skip(1);
            Some(
                RequestModel {
                    method: w[0],
                    path: target.0,
                    protocol: w[2],
                    query_params: query_map(target.1),
                    params: Map::empty(),
                    headers: header_map(rest),
                    body: trim_spec(joined_lines(body_lines(rest))),
                },
            )
        }
    }
}

/// The pairs of a query string, stored in a map.
fn parse_query(qs: &Vec<char>) -> (m: StrMap)
    ensures
        m@ == query_map(qs@),
{
    let pieces = split_chars(qs, Sep::Char('&'));
    let ghost pv = pieces.deep_view();
    let ghost f = |p: Seq<char>| split_at_first(p, '=');
    let mut m = StrMap::new();
    let mut i: usize = 0;
    proof {
        assert(pv.take(0).map_values(f) =~= Seq::<(Seq<char>, Seq<char>)>::empty());
    }
    while i < pieces.len()
        invariant
            pv == pieces.deep_view(),
            pv == split_spec(qs@, Sep::Char('&')),
            i <= pieces.len(),
            f == (|p: Seq<char>| split_at_first(p, '=')),
            m@ == insert_pairs(Map::empty(), pv.take(i as int).map_values(f)),
        decreases pieces.len() - i,
    {
        let piece = &pieces[i];
        assert(piece@ =~= pv[i as int]);
        let (k, v) = split_first(piece, '=');
        let ghost before = pv.take(i as int).map_values(f);
        m.insert_chars(k, chars_to_string(&v));
        proof {
            assert(pv.take(i + 1).map_values(f) =~= before.push(f(pv[i as int])));
            lemma_insert_pairs_push(Map::empty(), before, f(pv[i as int]));
        }
        i = i + 1;
    }
    assert(pv.take(pieces.len() as int) =~= pv);
    m
}

/// A header line cut at its first `": "`.
fn split_header(line: &Vec<char>) -> (r: Option<(Vec<char>, Vec<char>)>)
    ensures
        r matches Some(kv) ==> header_field(line@) == Some((kv.0@, kv.1@)),
        r is None ==> header_field(line@) is None,
{
    let mut pat: Vec<char> = Vec::new();
    pat.push(':');
    pat.push(' ');
    assert(pat@ =~= field_sep());
    match find_pattern(line, &pat) {
        Some(i) => {
            proof {
                crate::text::occurrences(line@, pat@).index_of_first_ensures(true);
            }
            Some((sub_chars(line, 0, i), sub_chars(line, i + 2, line.len())))
        },
        None => None,
    }
}

/// The headers and the untrimmed body text that the lines after the request
/// line hold.
fn parse_fields(ls: &Vec<Vec<char>>) -> (r: (StrMap, Vec<char>))
    requires
        ls.len() >= 1,
    ensures
        r.0@ == header_map(ls.deep_view().skip(1)),
        r.1@ == joined_lines(body_lines(ls.deep_view().skip(1))),
{
    let ghost rest = ls.deep_view().skip(1);
    let ghost hf = |l: Seq<char>| header_field(l);
    let ghost marks = blank_marks(rest);
    let mut headers = StrMap::new();
    let mut body: Vec<char> = Vec::new();
    let mut is_body = false;
    let mut i: usize = 1;
    proof {
        assert(rest.take(0).filter_map(hf) =~= Seq::<(Seq<char>, Seq<char>)>::empty());
    }
    while i < ls.len()
        invariant
            1 <= i <= ls.len(),
            rest == ls.deep_view().skip(1),
            rest.len() == ls.len() - 1,
            marks == blank_marks(rest),
            hf == (|l: Seq<char>| header_field(l)),
            !is_body ==> {
                &&& forall|j: int| 0 <= j < i - 1 ==> !marks[j]
                &&& headers@ == insert_pairs(Map::empty(), rest.take(i - 1).filter_map(hf))
                &&& body@ == Seq::<char>::empty()
            },
            is_body ==> {
                &&& body_start(rest) < i - 1
                &&& headers@ == header_map(rest)
                &&& body@ == joined_lines(rest.subrange(body_start(rest) + 1, i - 1))
            },
        decreases ls.len() - i,
    {
        let line = &ls[i];
        let ghost j: int = i - 1;
        proof {
            assert(line@ =~= ls.deep_view()[i as int]);
            assert(rest[j] == line@);
        }
        if line.len() == 0 {
            if !is_body {
                proof {
                    marks.index_of_first_ensures(true);
                    assert(marks[j]);
                    let k = marks.index_of_first(true).unwrap();
                    assert(k == j) by {
                        if k < j {
                            assert(!marks[k]);
                        }
                    }
                    assert(body_start(rest) == j);
                    assert(rest.subrange(j + 1, j + 1) =~= Seq::<Seq<char>>::empty());
                    reveal_with_fuel(Seq::filter, 1);
                    assert(joined_lines(Seq::<Seq<char>>::empty()) =~= Seq::<char>::empty());
                }
                is_body = true;
            } else {
                proof {
                    marks.index_of_first_ensures(true);
                    let k = body_start(rest);
                    assert(rest.subrange(k + 1, j + 1) =~= rest.subrange(k + 1, j).push(line@));
                    lemma_joined_lines_push(rest.subrange(k + 1, j), line@);
                }
            }
        } else if is_body {
            let ghost before = body@;
            append_chars(&mut body, line);
            body.push('\n');
            proof {
                marks.index_of_first_ensures(true);
                let k = body_start(rest);
                assert(rest.subrange(k + 1, j + 1) =~= rest.subrange(k + 1, j).push(line@));
                lemma_joined_lines_push(rest.subrange(k + 1, j), line@);
                assert(body@ =~= before + line@.push('\n'));
            }
        } else {
            let ghost before = rest.take(j).filter_map(hf);
            proof {
                rest.lemma_filter_map_take_succ(hf, j);
                assert(!marks[j]);
            }
            match split_header(line) {
                Some((k, v)) => {
                    let ghost kv = (k@, v@);
                    headers.insert_chars(k, chars_to_string(&v));
                    proof {
                        assert(before + seq![kv] =~= before.push(kv));
                        lemma_insert_pairs_push(Map::empty(), before, kv);
                    }
                },
                None => {
                    assert(before + Seq::<(Seq<char>, Seq<char>)>::empty() =~= before);
                },
            }
        }
        i = i + 1;
    }
    proof {
        if !is_body {
            marks.index_of_first_ensures(true);
            assert(!marks.contains(true)) by {
                if marks.contains(true) {
                    let k = choose|k: int| 0 <= k < marks.len() && marks[k] == true;
                    assert(!marks[k]);
                }
            }
            assert(body_start(rest) == rest.len());
            assert(rest.take(rest.len() as int) =~= rest);
            assert(body_lines(rest) =~= Seq::<Seq<char>>::empty());
            reveal_with_fuel(Seq::filter, 1);
            assert(joined_lines(Seq::<Seq<char>>::empty()) =~= Seq::<char>::empty());
        } else {
            marks.index_of_first_ensures(true);
            assert(rest.subrange(body_start(rest) + 1, rest.len() as int) =~= rest.skip(
                body_start(rest) + 1,
            ));
        }
    }
    (headers, body)
}

/// Whether the headers declare a URL-encoded form body: `Content-Type` is
/// present and holds `application/x-www-form-urlencoded`.
pub open spec fn is_form(headers: Map<Seq<char>, Seq<char>>) -> bool {
    headers.contains_key("Content-Type"@) && find_spec(
        headers["Content-Type"@],
        "application/x-www-form-urlencoded"@,
    ) is Some
}

/// A form field `key=value`, cut at its first `=`; `None` without `=`.
pub open spec fn form_field(p: Seq<char>) -> Option<(Seq<char>, Seq<char>)> {
    match p.index_of_first('=') {
        Some(i) => Some((p.take(i), p.skip(i + 1))),
        None => None,
    }
}

/// The fields of a URL-encoded form body: its `&`-separated pieces that
/// hold `=`.
pub open spec fn form_map(body: Seq<char>) -> Map<Seq<char>, Seq<char>> {
    insert_pairs(
        Map::empty(),
        split_spec(body, Sep::Char('&')).filter_map(|p: Seq<char>| form_field(p)),
    )
}

/// A request: method, path, protocol, parameters, headers and body.
pub struct HttpRequest {
    pub method: String,
    pub path: String,
    pub protocol: String,
    pub query_params: StrMap,
    pub params: StrMap,
    pub headers: StrMap,
    pub body: String,
}

impl View for HttpRequest {
    type V = RequestModel;

    open spec fn view(&self) -> RequestModel {
        RequestModel {
            method: self.method@,
            path: self.path@,
            protocol: self.protocol@,
            query_params: self.query_params@,
            params: self.params@,
            headers: self.headers@,
            body: self.body@,
        }
    }
}

impl HttpRequest {
    /// Reads a request from its text; `None` when the first line has fewer
    /// than three words.
    pub fn parse(request_str: &str) -> (r: Option<Self>)
        ensures
            r matches Some(req) ==> parse_spec(request_str@) == Some(req@),
            r is None ==> parse_spec(request_str@) is None,
    {
        let chars = to_chars(request_str);
        let ls = lines(&chars);
        let ghost lsv = ls.deep_view();
        if ls.len() == 0 {
            return None;
        }
        assert(ls[0]@ =~= lsv[0]);
        let words = split_whitespace(&ls[0]);
        let ghost wv = words.deep_view();
        if words.len() < 3 {
            return None;
        }
        assert(words[0]@ =~= wv[0]);
        assert(words[1]@ =~= wv[1]);
        assert(words[2]@ =~= wv[2]);
        let method = chars_to_string(&words[0]);
        let protocol = chars_to_string(&words[2]);
        let (path, query) = split_first(&words[1], '?');
        let (headers, body_raw) = parse_fields(&ls);
        let query_params = parse_query(&query);
        let body = chars_to_string(&trim(&body_raw));
        let req = HttpRequest {
            method,
            path: chars_to_string(&path),
            protocol,
            query_params,
            params: StrMap::new(),
            headers,
            body,
        };
        Some(req)
    }

    /// The body up to its first NUL character: the part of a fixed-size
    /// read buffer that the client filled.
    pub fn get_body_raw(&self) -> (r: String)
        ensures
            r@ == split_at_first(self.body@, '\0').0,
    {
        let cs = to_chars(self.body.as_str());
        let (before, _after) = split_first(&cs, '\0');
        chars_to_string(&before)
    }

    /// The fields of a URL-encoded form body, or an empty map when the
    /// `Content-Type` header does not declare one.
    pub fn get_body(&self) -> (r: StrMap)
        ensures
            r@ == if is_form(self.headers@) {
                form_map(self.body@)
            } else {
                Map::empty()
            },
    {
        let mut form_data = StrMap::new();
        let is_form_body = match self.headers.get("Content-Type") {
            Some(ct) => {
                let ct_chars = to_chars(ct.as_str());
                let pat = to_chars("application/x-www-form-urlencoded");
                find_pattern(&ct_chars, &pat).is_some()
            },
            None => false,
        };
        if is_form_body {
            let body = to_chars(self.body.as_str());
            let pieces = split_chars(&body, Sep::Char('&'));
            let ghost pv = pieces.deep_view();
            let ghost ff = |p: Seq<char>| form_field(p);
            let mut i: usize = 0;
            proof {
                assert(pv.take(0).filter_map(ff) =~= Seq::<(Seq<char>, Seq<char>)>::empty());
            }
            while i < pieces.len()
                invariant
                    pv == pieces.deep_view(),
                    pv == split_spec(self.body@, Sep::Char('&')),
                    i <= pieces.len(),
                    ff == (|p: Seq<char>| form_field(p)),
                    form_data@ == insert_pairs(Map::empty(), pv.take(i as int).filter_map(ff)),
                decreases pieces.len() - i,
            {
                let piece = &pieces[i];
                assert(piece@ =~= pv[i as int]);
                let ghost before = pv.take(i as int).filter_map(ff);
                proof {
                    pv.lemma_filter_map_take_succ(ff, i as int);
                    piece@.index_of_first_ensures('=');
                }
                match find_char(piece, '=') {
                    Some(j) => {
                        let k = sub_chars(piece, 0, j);
                        let v = sub_chars(piece, j + 1, piece.len());
                        let ghost kv = (k@, v@);
                        form_data.insert_chars(k, chars_to_string(&v));
                        proof {
                            assert(before + seq![kv] =~= before.push(kv));
                            lemma_insert_pairs_push(Map::empty(), before, kv);
                        }
                    },
                    None => {
                        assert(before + Seq::<(Seq<char>, Seq<char>)>::empty() =~= before);
                    },
                }
                i = i + 1;
            }
            assert(pv.take(pieces.len() as int) =~= pv);
        }
        form_data
    }

    /// The request method.
    pub fn get_method(&self) -> (r: &str)
        ensures
            r@ == self.method@,
    {
        self.method.as_str()
    }

    /// The value of parameter `name`: a path parameter up to its first `&`
    /// when there is one, else the query parameter, else empty text.
    pub fn get_param(&self, name: &str) -> (r: &str)
        ensures
            r@ == if self.params@.contains_key(name@) {
                split_at_first(self.params@[name@], '&').0
            } else if self.query_params@.contains_key(name@) {
                self.query_params@[name@]
            } else {
                Seq::<char>::empty()
            },
    {
        if let Some(value) = self.params.get(name) {
            let v = value.as_str();
            let cs = to_chars(v);
            proof {
                cs@.index_of_first_ensures('&');
            }
            return match find_char(&cs, '&') {
                Some(i) => v.substring_char(0, i),
                None => v,
            };
        }
        if let Some(query) = self.query_params.get(name) {
            return query.as_str();
        }
        proof {
            reveal_strlit("");
        }
        ""
    }

    /// The value of query parameter `name`, or empty text.
    pub fn get_query_param(&self, name: &str) -> (r: &str)
        ensures
            r@ == if self.query_params@.contains_key(name@) {
                self.query_params@[name@]
            } else {
                Seq::<char>::empty()
            },
    {
        match self.query_params.get(name) {
            Some(s) => s.as_str(),
            None => {
                proof {
                    reveal_strlit("");
                }
                ""
            },
        }
    }
}

/// A request written with CRLF line endings parses as the same request
/// written with LF alone: when every carriage return in `s` is followed by a
/// line feed, taking the carriage returns out changes nothing that `parse`
/// gives, neither whether it succeeds nor any part of the request.
pub proof fn law_parse_crlf_as_lf(s: Seq<char>)
    requires
        cr_only_before_lf(s),
    ensures
        parse_spec(drop_cr(s)) == parse_spec(s),
{
    law_lines_crlf_as_lf(s);
}

/// A form field is cut at its first `=`: a key without `=`, then `=`, then
/// any value (which may hold `=` itself) gives that key and that value; a
/// piece without `=` is no field.
pub proof fn law_form_field_first_eq(k: Seq<char>, v: Seq<char>, p: Seq<char>)
    ensures
        !k.contains('=') ==> form_field(k + seq!['='] + v) == Some((k, v)),
        !p.contains('=') ==> form_field(p) is None,
{
    p.index_of_first_ensures('=');
    if !k.contains('=') {
        let q = k + seq!['='] + v;
        q.index_of_first_ensures('=');
        assert(q[k.len() as int] == '=');
        assert(q.contains('='));
        let i = q.index_of_first('=').unwrap();
        assert(i == k.len()) by {
            if i < k.len() {
                assert(q[i] == k[i]);
                assert(k.contains('='));
            }
        }
        assert(q.take(i) =~= k);
        assert(q.skip(i + 1) =~= v);
    }
}

/// Form bodies with one field: the key up to the first `=` gets the whole
/// rest of the piece as its value.
pub proof fn law_form_map_single_field(k: Seq<char>, v: Seq<char>)
    requires
        !k.contains('='),
        !k.contains('&'),
        !v.contains('&'),
    ensures
        form_map(k + seq!['='] + v) == Map::<Seq<char>, Seq<char>>::empty().insert(k, v),
{
    let body = k + seq!['='] + v;
    law_form_field_first_eq(k, v, body);
    assert forall|j: int| 0 <= j < body.len() implies !Sep::Char('&').spec_matches(#[trigger] body[j]) by {
        if j < k.len() {
            assert(body[j] == k[j]);
        } else if j > k.len() {
            assert(body[j] == v[j - k.len() - 1]);
        }
    }
    lemma_split_free(body, Sep::Char('&'));
    let f = |p: Seq<char>| form_field(p);
    let fm = seq![body].filter_map(f);
    assert(fm =~= seq![(k, v)]) by {
        reveal_with_fuel(Seq::filter_map, 2);
        assert(seq![body].drop_last() =~= Seq::<Seq<char>>::empty());
    }
    assert(seq![(k, v)].drop_last() =~= Seq::<(Seq<char>, Seq<char>)>::empty());
    assert(split_spec(body, Sep::Char('&')) == seq![body]);
    assert(split_spec(body, Sep::Char('&')).filter_map(|p: Seq<char>| form_field(p)) == fm);
    assert(insert_pairs(Map::empty(), seq![(k, v)].drop_last()) == Map::<Seq<char>, Seq<char>>::empty());
    assert(insert_pairs(Map::empty(), seq![(k, v)]) =~= Map::<Seq<char>, Seq<char>>::empty().insert(
        k,
        v,
    ));
}

} // verus!
