//! # Elasticsearch output
//!
//! - posts every line, a JSON document, to an Elasticsearch index
//!
//! Each line is read as JSON; a line that is not JSON, or whose document has
//! no `@timestamp` string, is not posted. The document goes to the index
//! that its timestamp names, as a document of type `logs`. The document is
//! posted as it was read, and the index of a timestamp is `logstash-`
//! followed by the timestamp's date with dots, `logstash-2015.05.21` for a
//! time on 21 May 2015, the daily indices that Logstash writes to.
//!
//! ### Parameters
//!
//! - **destination**: the host of the Elasticsearch server
//! - **port**: its HTTP port

use vstd::prelude::*;

use crate::outputs::network::{destination_name, port_name};
use crate::params::Params;
use crate::processor::{
    config_field, config_number, config_view, field_of, number_of, str_views, ConfigError,
    ConfigFault, Processor,
};
use crate::json::{decode_json, encode_json, find, find_member, json_of, json_text, Json, JsonV};
use crate::text::{decimal, u32_to_decimal};

verus! {

/// The server that the parameters name: host, then port.
pub open spec fn server_of(config: Option<Map<Seq<char>, Seq<char>>>) -> Result<
    (Seq<char>, u32),
    ConfigFault,
> {
    match field_of(config, destination_name()) {
        Err(e) => Err(e),
        Ok(host) => match number_of(config, port_name()) {
            Err(e) => Err(e),
            Ok(p) => Ok((host, p)),
        },
    }
}

/// The path, on the server, that creates a document of type `logs` in an
/// index.
pub open spec fn index_path_of(index_name: Seq<char>) -> Seq<char> {
    "/"@ + index_name + "/"@ + document_type() + "?op_type=create"@
}

/// The URL that creates a document of type `logs` in an index.
pub open spec fn index_url_of(host: Seq<char>, port: u32, index_name: Seq<char>) -> Seq<char> {
    "http://"@ + host + ":"@ + decimal(port as nat) + index_path_of(index_name)
}

/// `"@timestamp"`
pub open spec fn timestamp_name() -> Seq<char> {
    "@timestamp"@
}

/// The timestamp's date, its first ten characters, with `-` written as `.`.
pub open spec fn dotted_date(t: Seq<char>) -> Seq<char> {
    let d = if t.len() < 10 { t } else { t.take(10) };
    d.map_values(|c: char| if c == '-' { '.' } else { c })
}

/// The index of the documents of a timestamp.
pub open spec fn index_name_of(t: Seq<char>) -> Seq<char> {
    "logstash-"@ + dotted_date(t)
}

/// The character that stands in an index name for the character `c` of a
/// timestamp.
pub open spec fn index_char(c: char) -> char {
    if c == '-' {
        '.'
    } else {
        c
    }
}

/// The index of a timestamp is `logstash-` followed by the timestamp's first
/// ten characters (all of it when it is shorter), one for one and in order,
/// each `-` written as `.`: nothing dropped, added or moved.
pub proof fn lemma_index_name_is_the_dotted_date(t: Seq<char>)
    ensures
        index_name_of(t).len() == 9 + (if t.len() < 10 { t.len() } else { 10 }),
        index_name_of(t).take(9) == "logstash-"@,
        forall|i: int|
            0 <= i < 10 && i < t.len() ==> #[trigger] index_name_of(t)[9 + i] == index_char(t[i]),
{
    reveal_strlit("logstash-");
    let n = index_name_of(t);
    assert(n.take(9) =~= "logstash-"@);
    assert forall|i: int| 0 <= i < 10 && i < t.len() implies #[trigger] n[9 + i] == index_char(
        t[i],
    ) by {
        let d = if t.len() < 10 { t } else { t.take(10) };
        assert(d[i] == t[i]);
    }
}

/// What to do with a line.
pub enum EsAction {
    /// Post `body` to `path` on the server; `url` is the whole address.
    Post { url: String, path: String, body: String },
    /// The line is not JSON.
    NotJson,
    /// The document has no `@timestamp` member.
    NoTimestamp,
    /// The `@timestamp` member is not a string.
    TimestampNotText,
    /// The document cannot be written back as JSON text.
    Unencodable,
}

/// An `EsAction` with its strings as character sequences.
pub enum EsActionV {
    Post(Seq<char>, Seq<char>, Seq<char>),
    NotJson,
    NoTimestamp,
    TimestampNotText,
    Unencodable,
}

impl View for EsAction {
    type V = EsActionV;

    open spec fn view(&self) -> EsActionV {
        match self {
            EsAction::Post { url, path, body } => EsActionV::Post(url@, path@, body@),
            EsAction::NotJson => EsActionV::NotJson,
            EsAction::NoTimestamp => EsActionV::NoTimestamp,
            EsAction::TimestampNotText => EsActionV::TimestampNotText,
            EsAction::Unencodable => EsActionV::Unencodable,
        }
    }
}

/// What to do with a line for the server at `host` and `port`.
pub open spec fn es_action_of(host: Seq<char>, port: u32, line: Seq<char>) -> EsActionV {
    match json_of(line) {
        None => EsActionV::NotJson,
        Some(doc) => match find(doc, timestamp_name()) {
            None => EsActionV::NoTimestamp,
            Some(JsonV::Str(t)) => match json_text(doc) {
                Some(body) => EsActionV::Post(
                    index_url_of(host, port, index_name_of(t)),
                    index_path_of(index_name_of(t)),
                    body,
                ),
                None => EsActionV::Unencodable,
            },
            Some(_) => EsActionV::TimestampNotText,
        },
    }
}

/// The type under which the documents are stored.
pub open spec fn document_type() -> Seq<char> {
    "logs"@
}

/// Posts every line to Elasticsearch.
pub struct Elasticsearch {
    name: String,
}

impl Elasticsearch {
    pub fn new(name: String) -> (res: Elasticsearch)
        ensures
            res.name_view() == name@,
    {
        Elasticsearch { name }
    }

    /// The host and port of the server.
    pub fn server(config: &Option<Params>) -> (res: Result<(String, u32), ConfigError>)
        ensures
            match res {
                Ok((h, p)) => server_of(config_view(*config)) == Ok::<(Seq<char>, u32), ConfigFault>((h@, p)),
                Err(e) => server_of(config_view(*config)) == Err::<(Seq<char>, u32), ConfigFault>(e@),
            },
    {
        let host = config_field(config, "destination")?;
        let port = config_number(config, "port")?;
        Ok((host.clone(), port))
    }

    /// The index of the documents of a timestamp.
    pub fn index_name(t: &str) -> (res: String)
        ensures
            res@ == index_name_of(t@),
            res@.len() == 9 + (if t@.len() < 10 { t@.len() } else { 10 }),
            res@.take(9) == "logstash-"@,
            forall|i: int|
                0 <= i < 10 && i < t@.len() ==> #[trigger] res@[9 + i] == index_char(t@[i]),
    {
        let mut name = "logstash-".to_owned();
        let n = t.unicode_len();
        let m: usize = if n < 10 { n } else { 10 };
        let ghost d = if t@.len() < 10 { t@ } else { t@.take(10) };
        assert(d.len() == m);
        let mut i: usize = 0;
        while i < m
            invariant
                m <= n,
                n == t@.len(),
                i <= m,
                d.len() == m,
                d == (if t@.len() < 10 { t@ } else { t@.take(10) }),
                name@ == "logstash-"@ + d.take(i as int).map_values(
                    |c: char| if c == '-' { '.' } else { c },
                ),
            decreases m - i,
        {
            let c = t.get_char(i);
            assert(d[i as int] == c);
            let out = if c == '-' { '.' } else { c };
            let ghost before = name@;
            crate::text::push_char(&mut name, out);
            assert(d.take(i + 1).map_values(|c: char| if c == '-' { '.' } else { c }) =~= d.take(
                i as int,
            ).map_values(|c: char| if c == '-' { '.' } else { c }).push(out));
            i = i + 1;
        }
        assert(d.take(m as int) =~= d);
        proof {
            lemma_index_name_is_the_dotted_date(t@);
        }
        name
    }

    /// What to do with a line: post the document it holds to the index of
    /// its timestamp, or why not.
    pub fn index_request(host: &str, port: u32, line: &str) -> (res: EsAction)
        ensures
            res@ == es_action_of(host@, port, line@),
    {
        let doc = match decode_json(line) {
            None => {
                return EsAction::NotJson;
            },
            Some(d) => d,
        };
        let t = match find_member(&doc, "@timestamp") {
            None => {
                return EsAction::NoTimestamp;
            },
            Some(Json::Str(t)) => t,
            Some(_) => {
                return EsAction::TimestampNotText;
            },
        };
        let index = Self::index_name(t.as_str());
        match encode_json(&doc) {
            None => EsAction::Unencodable,
            Some(body) => {
                let url = Self::index_url(host, port, index.as_str());
                let path = Self::index_path(index.as_str());
                EsAction::Post { url, path, body }
            },
        }
    }

    /// The path to post a document of the index `index_name` to.
    pub fn index_path(index_name: &str) -> (res: String)
        ensures
            res@ == index_path_of(index_name@),
    {
        let mut path = "/".to_owned();
        path.append(index_name);
        path.append("/");
        path.append("logs");
        path.append("?op_type=create");
        assert(path@ =~= index_path_of(index_name@));
        path
    }

    /// The URL to post a document of the index `index_name` to.
    pub fn index_url(host: &str, port: u32, index_name: &str) -> (res: String)
        ensures
            res@ == index_url_of(host@, port, index_name@),
    {
        let mut url = "http://".to_owned();
        url.append(host);
        url.append(":");
        let digits = u32_to_decimal(port);
        url.append(digits.as_str());
        let path = Self::index_path(index_name);
        url.append(path.as_str());
        assert(url@ =~= index_url_of(host@, port, index_name@));
        url
    }
}

impl Processor for Elasticsearch {
    closed spec fn name_view(&self) -> Seq<char> {
        self.name@
    }

    open spec fn mandatory_view(&self) -> Seq<Seq<char>> {
        seq![destination_name(), port_name()]
    }

    fn human_name(&self) -> (res: &str) {
        self.name.as_str()
    }

    fn mandatory_fields(&self) -> (res: Vec<&'static str>) {
        let res = vec!["destination", "port"];
        assert(str_views(res@) =~= seq![destination_name(), port_name()]);
        res
    }
}

} // verus!
