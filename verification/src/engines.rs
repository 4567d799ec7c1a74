//! The database engines and how a connection to one is described.

use rand::seq::SliceRandom;
use vstd::prelude::*;

use crate::text::{percent_encode, replace_all, to_decimal};

verus! {

/// An engine, as it is chosen on the command line.
#[derive(Copy, Clone, Debug, PartialEq, Eq, Structural)]
pub enum EngineType {
    Mysql,
    Postgres,
    PostgresExtended,
    External,
}

/// An engine with what is needed to start it.
#[derive(Clone, Debug)]
pub enum EngineConfig {
    MySql,
    Postgres,
    PostgresExtended,
    /// The template of the command that starts the engine.
    External(String),
}

/// Connection configuration.
#[derive(Clone)]
pub struct DBConfig {
    /// The database server host and port. One is chosen at random where several are given.
    pub addrs: Vec<(String, u16)>,
    /// The database name to connect to.
    pub db: String,
    /// The database username.
    pub user: String,
    /// The database password.
    pub pass: String,
    /// Command line options that configure the server.
    pub options: Option<String>,
}

/// What a connection to a MySQL server needs.
pub struct ServerParams {
    pub host: String,
    pub port: u16,
    pub db: String,
    pub user: String,
    pub pass: String,
}

/// The URL of a MySQL server and a database on it; user, password and database are
/// percent-encoded, so that none of their characters is taken for a separator.
pub open spec fn mysql_url(params: ServerParams) -> Seq<char> {
    "mysql://"@ + crate::text::percent_encoded(params.user@) + ":"@ + crate::text::percent_encoded(
        params.pass@,
    ) + "@"@ + params.host@ + ":"@ + crate::text::decimal(params.port as nat) + "/"@
        + crate::text::percent_encoded(params.db@)
}

impl ServerParams {
    /// The URL of the server and the database.
    pub fn url(&self) -> (r: String)
        ensures
            r@ == mysql_url(*self),
    {
        let mut r = "mysql://".to_owned();
        r.append(percent_encode(self.user.as_str()).as_str());
        r.append(":");
        r.append(percent_encode(self.pass.as_str()).as_str());
        r.append("@");
        r.append(self.host.as_str());
        r.append(":");
        r.append(to_decimal(self.port as u64).as_str());
        r.append("/");
        r.append(percent_encode(self.db.as_str()).as_str());
        r
    }
}

/// What to connect to.
pub enum ConnectTarget {
    MySql(ServerParams),
    Postgres(tokio_postgres::Config),
    PostgresExtended(tokio_postgres::Config),
    /// A subprocess: the command for the shell that starts it.
    External(String),
}

/// `tokio_postgres::Config`, the description of a connection to a PostgreSQL server.
#[verifier::external_type_specification]
#[verifier::external_body]
pub struct ExPostgresConfig(tokio_postgres::Config);

/// The settings of a `tokio_postgres::Config` that can be made here.
pub struct PostgresSettings {
    /// The hosts in the order in which they were added, as they were written.
    pub hosts: Seq<Seq<char>>,
    pub ports: Seq<u16>,
    pub dbname: Option<Seq<char>>,
    pub user: Option<Seq<char>>,
    /// The bytes of the password.
    pub password: Option<Seq<u8>>,
    pub options: Option<Seq<char>>,
}

/// What `config` holds of the settings that can be made here.
pub uninterp spec fn postgres_settings(config: tokio_postgres::Config) -> PostgresSettings;

/// `tokio_postgres::Config::new` gives a configuration without host, port, database, user,
/// password and options.
pub assume_specification[ tokio_postgres::Config::new ]() -> (r: tokio_postgres::Config)
    ensures
        postgres_settings(r) == (PostgresSettings {
            hosts: Seq::empty(),
            ports: Seq::empty(),
            dbname: None,
            user: None,
            password: None,
            options: None,
        }),
;

/// `tokio_postgres::Config::host` adds a host behind those that are there.
#[verifier::external_body]
fn postgres_host(config: &mut tokio_postgres::Config, host: &str)
    ensures
        postgres_settings(*final(config)) == (PostgresSettings {
            hosts: postgres_settings(*old(config)).hosts.push(host@),
            ..postgres_settings(*old(config))
        }),
{
    config.host(host);
}

/// `tokio_postgres::Config::port` adds a port behind those that are there.
#[verifier::external_body]
fn postgres_port(config: &mut tokio_postgres::Config, port: u16)
    ensures
        postgres_settings(*final(config)) == (PostgresSettings {
            ports: postgres_settings(*old(config)).ports.push(port),
            ..postgres_settings(*old(config))
        }),
{
    config.port(port);
}

/// `tokio_postgres::Config::dbname` sets the database.
#[verifier::external_body]
fn postgres_dbname(config: &mut tokio_postgres::Config, dbname: &str)
    ensures
        postgres_settings(*final(config)) == (PostgresSettings {
            dbname: Some(dbname@),
            ..postgres_settings(*old(config))
        }),
{
    config.dbname(dbname);
}

/// `tokio_postgres::Config::user` sets the user.
#[verifier::external_body]
fn postgres_user(config: &mut tokio_postgres::Config, user: &str)
    ensures
        postgres_settings(*final(config)) == (PostgresSettings {
            user: Some(user@),
            ..postgres_settings(*old(config))
        }),
{
    config.user(user);
}

/// `tokio_postgres::Config::password` sets the password, as the bytes of its text.
#[verifier::external_body]
fn postgres_password(config: &mut tokio_postgres::Config, password: &str)
    ensures
        postgres_settings(*final(config)) == (PostgresSettings {
            password: Some(vstd::utf8::encode_utf8(password@)),
            ..postgres_settings(*old(config))
        }),
{
    config.password(password);
}

/// `tokio_postgres::Config::options` sets the options that configure the server.
#[verifier::external_body]
fn postgres_options(config: &mut tokio_postgres::Config, options: &str)
    ensures
        postgres_settings(*final(config)) == (PostgresSettings {
            options: Some(options@),
            ..postgres_settings(*old(config))
        }),
{
    config.options(options);
}

/// `rand::seq::SliceRandom::choose` with the generator of the thread picks one of the
/// addresses, none only where there is none. Which one is left to chance.
#[verifier::external_body]
fn choose_addr(addrs: &Vec<(String, u16)>) -> (r: Option<&(String, u16)>)
    ensures
        r is None <==> addrs@.len() == 0,
        r matches Some(addr) ==> addrs@.contains(*addr),
{
    addrs.choose(&mut rand::thread_rng())
}

/// Whether `other` is `config` for the database `db`.
pub open spec fn is_for_database(other: DBConfig, config: DBConfig, db: Seq<char>) -> bool {
    &&& other.db@ == db
    &&& other.addrs@ == config.addrs@
    &&& other.user == config.user
    &&& other.pass == config.pass
    &&& other.options == config.options
}

impl DBConfig {
    /// Whether the host and the port are one of the addresses.
    pub open spec fn has_addr(&self, host: Seq<char>, port: u16) -> bool {
        exists|i: int|
            0 <= i < self.addrs@.len() && (#[trigger] self.addrs@[i]).0@ == host
                && self.addrs@[i].1 == port
    }

    /// One of the addresses, chosen at random.
    pub fn random_addr(&self) -> (r: (&str, u16))
        requires
            self.addrs@.len() > 0,
        ensures
            self.has_addr(r.0@, r.1),
    {
        let addr = choose_addr(&self.addrs).unwrap();
        (addr.0.as_str(), addr.1)
    }

    /// The same configuration for the database `db`.
    pub fn for_database(&self, db: &str) -> (r: DBConfig)
        ensures
            is_for_database(r, *self, db@),
            r.addrs@ == self.addrs@,
            r.db@ == db@,
            r.user == self.user,
            r.pass == self.pass,
            r.options == self.options,
    {
        let mut addrs: Vec<(String, u16)> = Vec::new();
        let mut i: usize = 0;
        while i < self.addrs.len()
            invariant
                i <= self.addrs@.len(),
                addrs@ == self.addrs@.take(i as int),
            decreases self.addrs@.len() - i,
        {
            addrs.push((self.addrs[i].0.clone(), self.addrs[i].1));
            assert(addrs@ =~= self.addrs@.take(i + 1));
            i += 1;
        }
        assert(addrs@ =~= self.addrs@);
        DBConfig {
            addrs,
            db: db.to_owned(),
            user: self.user.clone(),
            pass: self.pass.clone(),
            options: self.options.clone(),
        }
    }
}

/// The settings for a connection to the PostgreSQL server at `host` and `port`.
pub open spec fn settings_for(config: DBConfig, host: Seq<char>, port: u16) -> PostgresSettings {
    PostgresSettings {
        hosts: seq![host],
        ports: seq![port],
        dbname: Some(config.db@),
        user: Some(config.user@),
        password: Some(vstd::utf8::encode_utf8(config.pass@)),
        options: match config.options {
            Some(options) => Some(options@),
            None => None,
        },
    }
}

/// The description of a connection to the PostgreSQL server at `host` and `port`.
pub fn postgres_config(config: &DBConfig, host: &str, port: u16) -> (r: tokio_postgres::Config)
    ensures
        postgres_settings(r) == settings_for(*config, host@, port),
        postgres_settings(r).dbname == Some(config.db@),
        postgres_settings(r).user == Some(config.user@),
        postgres_settings(r).password == Some(vstd::utf8::encode_utf8(config.pass@)),
{
    let mut r = tokio_postgres::Config::new();
    postgres_host(&mut r, host);
    postgres_port(&mut r, port);
    postgres_dbname(&mut r, config.db.as_str());
    postgres_user(&mut r, config.user.as_str());
    postgres_password(&mut r, config.pass.as_str());
    if let Some(options) = &config.options {
        postgres_options(&mut r, options.as_str());
    }
    assert(postgres_settings(r).hosts =~= seq![host@]);
    assert(postgres_settings(r).ports =~= seq![port]);
    r
}

/// The command that `template` stands for: `{db}`, `{host}`, `{port}`, `{user}` and `{pass}`
/// are replaced by the configuration, one after the other.
pub open spec fn command_for(
    template: Seq<char>,
    config: DBConfig,
    host: Seq<char>,
    port: u16,
) -> Seq<char> {
    let with_db = crate::text::replaced(template, "{db}"@, config.db@);
    let with_host = crate::text::replaced(with_db, "{host}"@, host);
    let with_port = crate::text::replaced(
        with_host,
        "{port}"@,
        crate::text::decimal(port as nat),
    );
    let with_user = crate::text::replaced(with_port, "{user}"@, config.user@);
    crate::text::replaced(with_user, "{pass}"@, config.pass@)
}

/// Fills in the template of the command that starts an external engine.
pub fn fill_template(template: &str, config: &DBConfig, host: &str, port: u16) -> (r: String)
    ensures
        r@ == command_for(template@, *config, host@, port),
{
    proof {
        reveal_strlit("{db}");
        reveal_strlit("{host}");
        reveal_strlit("{port}");
        reveal_strlit("{user}");
        reveal_strlit("{pass}");
    }
    let with_db = replace_all(template, "{db}", config.db.as_str());
    let with_host = replace_all(with_db.as_str(), "{host}", host);
    let port_text = to_decimal(port as u64);
    let with_port = replace_all(with_host.as_str(), "{port}", port_text.as_str());
    let with_user = replace_all(with_port.as_str(), "{user}", config.user.as_str());
    replace_all(with_user.as_str(), "{pass}", config.pass.as_str())
}

/// Whether `target` is what a connection with `engine` to the server at `host` and `port`
/// goes to.
pub open spec fn is_target(
    target: ConnectTarget,
    engine: EngineConfig,
    config: DBConfig,
    host: Seq<char>,
    port: u16,
) -> bool {
    match engine {
        EngineConfig::MySql => target matches ConnectTarget::MySql(params) && params.host@ == host
            && params.port == port && params.db@ == config.db@ && params.user@ == config.user@
            && params.pass@ == config.pass@,
        EngineConfig::Postgres => target matches ConnectTarget::Postgres(c) && postgres_settings(c)
            == settings_for(config, host, port),
        EngineConfig::PostgresExtended => target matches ConnectTarget::PostgresExtended(c)
            && postgres_settings(c) == settings_for(config, host, port),
        EngineConfig::External(template) => target matches ConnectTarget::External(command)
            && command@ == command_for(template@, config, host, port),
    }
}

/// Describes the connection with `engine` to the server at `host` and `port`.
pub fn connect_to(engine: &EngineConfig, config: &DBConfig, host: &str, port: u16) -> (r:
    ConnectTarget)
    ensures
        is_target(r, *engine, *config, host@, port),
{
    match engine {
        EngineConfig::MySql => ConnectTarget::MySql(
            ServerParams {
                host: host.to_owned(),
                port,
                db: config.db.clone(),
                user: config.user.clone(),
                pass: config.pass.clone(),
            },
        ),
        EngineConfig::Postgres => ConnectTarget::Postgres(postgres_config(config, host, port)),
        EngineConfig::PostgresExtended => ConnectTarget::PostgresExtended(
            postgres_config(config, host, port),
        ),
        EngineConfig::External(template) => ConnectTarget::External(
            fill_template(template.as_str(), config, host, port),
        ),
    }
}

/// Describes the connection with `engine` to one of the servers, chosen at random.
pub fn connect(engine: &EngineConfig, config: &DBConfig) -> (r: ConnectTarget)
    requires
        config.addrs@.len() > 0,
    ensures
        exists|host: Seq<char>, port: u16|
            config.has_addr(host, port) && #[trigger] is_target(r, *engine, *config, host, port),
{
    let (host, port) = config.random_addr();
    connect_to(engine, config, host, port)
}

/// Whether `s` is one of the items that are replaced in a template.
pub open spec fn is_item(s: Seq<char>) -> bool {
    s == "{db}"@ || s == "{host}"@ || s == "{port}"@ || s == "{user}"@ || s == "{pass}"@
}

/// A part of a template: text that stays, or an item that is replaced.
pub enum TemplatePiece {
    Text(Seq<char>),
    Item(Seq<char>),
}

impl TemplatePiece {
    /// What is written in the template for the piece.
    pub open spec fn text(self) -> Seq<char> {
        match self {
            TemplatePiece::Text(text) => text,
            TemplatePiece::Item(item) => item,
        }
    }
}

/// The template that consists of the pieces.
pub open spec fn written(pieces: Seq<TemplatePiece>) -> Seq<char>
    decreases pieces.len(),
{
    if pieces.len() == 0 {
        Seq::empty()
    } else {
        pieces[0].text() + written(pieces.skip(1))
    }
}

/// Whether the pieces that claim to be items are items.
pub open spec fn items_are_items(pieces: Seq<TemplatePiece>) -> bool {
    forall|i: int|
        0 <= i < pieces.len() ==> (#[trigger] pieces[i] matches TemplatePiece::Item(item)
            ==> is_item(item))
}

/// Whether `item` occurs in `s` at `i`.
pub open spec fn occurs(s: Seq<char>, item: Seq<char>, i: int) -> bool {
    0 <= i && i + item.len() <= s.len() && s.subrange(i, i + item.len()) == item
}

/// Whether no occurrence of `item` begins in a piece but those that are this item.
pub open spec fn only_as_item(pieces: Seq<TemplatePiece>, item: Seq<char>) -> bool
    decreases pieces.len(),
{
    pieces.len() == 0 || {
        &&& only_as_item(pieces.skip(1), item)
        &&& pieces[0] != TemplatePiece::Item(item) ==> forall|i: int|
            0 <= i < pieces[0].text().len() ==> !#[trigger] occurs(written(pieces), item, i)
    }
}

/// The pieces with `value` in place of `item`.
pub open spec fn substituted(
    pieces: Seq<TemplatePiece>,
    item: Seq<char>,
    value: Seq<char>,
) -> Seq<TemplatePiece> {
    pieces.map_values(
        |piece: TemplatePiece|
            if piece == TemplatePiece::Item(item) {
                TemplatePiece::Text(value)
            } else {
                piece
            },
    )
}

/// The piece with its value, where it is an item.
pub open spec fn filled_piece(
    piece: TemplatePiece,
    config: DBConfig,
    host: Seq<char>,
    port: u16,
) -> TemplatePiece {
    match piece {
        TemplatePiece::Text(text) => TemplatePiece::Text(text),
        TemplatePiece::Item(item) => TemplatePiece::Text(
            if item == "{db}"@ {
                config.db@
            } else if item == "{host}"@ {
                host
            } else if item == "{port}"@ {
                crate::text::decimal(port as nat)
            } else if item == "{user}"@ {
                config.user@
            } else {
                config.pass@
            },
        ),
    }
}

/// Whether the pieces name all the items of the template and, while these are replaced one
/// after the other, no value completes an item that the template does not have.
pub open spec fn fills_cleanly(
    pieces: Seq<TemplatePiece>,
    config: DBConfig,
    host: Seq<char>,
    port: u16,
) -> bool {
    let with_db = substituted(pieces, "{db}"@, config.db@);
    let with_host = substituted(with_db, "{host}"@, host);
    let with_port = substituted(with_host, "{port}"@, crate::text::decimal(port as nat));
    let with_user = substituted(with_port, "{user}"@, config.user@);
    &&& only_as_item(pieces, "{db}"@)
    &&& only_as_item(with_db, "{host}"@)
    &&& only_as_item(with_host, "{port}"@)
    &&& only_as_item(with_port, "{user}"@)
    &&& only_as_item(with_user, "{pass}"@)
}

/// Text in which no occurrence begins stays as it is.
proof fn lemma_replaced_text(text: Seq<char>, rest: Seq<char>, item: Seq<char>, value: Seq<char>)
    requires
        item.len() > 0,
        forall|i: int| 0 <= i < text.len() ==> !#[trigger] occurs(text + rest, item, i),
    ensures
        crate::text::replaced(text + rest, item, value) == text + crate::text::replaced(
            rest,
            item,
            value,
        ),
    decreases text.len(),
{
    let whole = text + rest;
    if text.len() == 0 {
        assert(whole =~= rest);
        assert(text + crate::text::replaced(rest, item, value) =~= crate::text::replaced(
            rest,
            item,
            value,
        ));
    } else {
        let shorter = text.skip(1) + rest;
        assert(whole.skip(1) =~= shorter);
        assert forall|i: int| 0 <= i < text.skip(1).len() implies !#[trigger] occurs(
            shorter,
            item,
            i,
        ) by {
            assert(!occurs(whole, item, i + 1));
            if occurs(shorter, item, i) {
                assert(whole.subrange(i + 1, i + 1 + item.len()) =~= shorter.subrange(
                    i,
                    i + item.len(),
                ));
            }
        }
        lemma_replaced_text(text.skip(1), rest, item, value);
        assert(!occurs(whole, item, 0));
        if whole.len() >= item.len() {
            assert(whole.take(item.len() as int) =~= whole.subrange(0, item.len() as int));
            assert(seq![whole[0]] + (text.skip(1) + crate::text::replaced(rest, item, value))
                =~= text + crate::text::replaced(rest, item, value));
        } else {
            assert(crate::text::replaced(rest, item, value) == rest);
        }
    }
}

/// In a template of pieces, replacing an item is putting its value in its pieces.
proof fn lemma_replaced_pieces(pieces: Seq<TemplatePiece>, item: Seq<char>, value: Seq<char>)
    requires
        item.len() > 0,
        only_as_item(pieces, item),
    ensures
        crate::text::replaced(written(pieces), item, value) == written(
            substituted(pieces, item, value),
        ),
    decreases pieces.len(),
{
    let changed = substituted(pieces, item, value);
    if pieces.len() > 0 {
        let rest = pieces.skip(1);
        assert(changed.skip(1) =~= substituted(rest, item, value));
        lemma_replaced_pieces(rest, item, value);
        if pieces[0] == TemplatePiece::Item(item) {
            let whole = item + written(rest);
            assert(whole.take(item.len() as int) =~= item);
            assert(whole.skip(item.len() as int) =~= written(rest));
        } else {
            let first = pieces[0].text();
            assert(written(pieces) == first + written(rest));
            assert forall|i: int| 0 <= i < first.len() implies !#[trigger] occurs(
                first + written(rest),
                item,
                i,
            ) by {
                assert(!occurs(written(pieces), item, i));
            }
            lemma_replaced_text(first, written(rest), item, value);
        }
    }
}

/// The items of a template are replaced by the configuration, all of them and nothing else: the
/// command is the template with each item's value in its place. Left out are only templates in
/// which a value completes an item, which is then replaced too.
pub proof fn law_template_items_are_replaced(
    pieces: Seq<TemplatePiece>,
    config: DBConfig,
    host: Seq<char>,
    port: u16,
)
    requires
        items_are_items(pieces),
        fills_cleanly(pieces, config, host, port),
    ensures
        command_for(written(pieces), config, host, port) == written(
            pieces.map_values(|p: TemplatePiece| filled_piece(p, config, host, port)),
        ),
{
    reveal_strlit("{db}");
    reveal_strlit("{host}");
    reveal_strlit("{port}");
    reveal_strlit("{user}");
    reveal_strlit("{pass}");
    let port_text = crate::text::decimal(port as nat);
    let p1 = substituted(pieces, "{db}"@, config.db@);
    lemma_replaced_pieces(pieces, "{db}"@, config.db@);
    let p2 = substituted(p1, "{host}"@, host);
    lemma_replaced_pieces(p1, "{host}"@, host);
    let p3 = substituted(p2, "{port}"@, port_text);
    lemma_replaced_pieces(p2, "{port}"@, port_text);
    let p4 = substituted(p3, "{user}"@, config.user@);
    lemma_replaced_pieces(p3, "{user}"@, config.user@);
    let p5 = substituted(p4, "{pass}"@, config.pass@);
    lemma_replaced_pieces(p4, "{pass}"@, config.pass@);
    assert(p5 =~= pieces.map_values(|p: TemplatePiece| filled_piece(p, config, host, port)));
}

/// Whether no item can begin inside `s`.
pub open spec fn brace_free(s: Seq<char>) -> bool {
    forall|i: int| 0 <= i < s.len() ==> s[i] != '{'
}

/// Whether the only braces of the template open items.
pub open spec fn braces_open_items(pieces: Seq<TemplatePiece>) -> bool {
    forall|i: int|
        0 <= i < pieces.len() ==> match #[trigger] pieces[i] {
            TemplatePiece::Text(text) => brace_free(text),
            TemplatePiece::Item(item) => is_item(item),
        }
}

/// An item begins with a brace, the only one in it, and two items differ within both.
proof fn lemma_items(a: Seq<char>, b: Seq<char>)
    requires
        is_item(a),
        is_item(b),
    ensures
        a.len() > 0,
        a[0] == '{',
        brace_free(a.skip(1)),
        a != b ==> exists|i: int| 0 <= i < a.len() && i < b.len() && a[i] != b[i],
{
    reveal_strlit("{db}");
    reveal_strlit("{host}");
    reveal_strlit("{port}");
    reveal_strlit("{user}");
    reveal_strlit("{pass}");
    if a != b {
        if a[1] == b[1] {
            assert(a[2] != b[2]);
        }
    }
}

/// Where braces only open items, an item occurs only as such.
proof fn lemma_braces_open_items(pieces: Seq<TemplatePiece>, item: Seq<char>)
    requires
        braces_open_items(pieces),
        is_item(item),
    ensures
        only_as_item(pieces, item),
    decreases pieces.len(),
{
    lemma_items(item, item);
    if pieces.len() > 0 {
        let first = pieces[0].text();
        let whole = written(pieces);
        lemma_braces_open_items(pieces.skip(1), item);
        if pieces[0] != TemplatePiece::Item(item) {
            assert forall|i: int| 0 <= i < first.len() implies !#[trigger] occurs(
                whole,
                item,
                i,
            ) by {
                if occurs(whole, item, i) {
                    let found = whole.subrange(i, i + item.len());
                    assert(found[0] == first[i]);
                    match pieces[0] {
                        TemplatePiece::Text(_) => {},
                        TemplatePiece::Item(other) => {
                            lemma_items(other, item);
                            if i > 0 {
                                assert(other.skip(1)[i - 1] == other[i]);
                            } else {
                                let k = choose|k: int|
                                    0 <= k < other.len() && k < item.len() && other[k] != item[k];
                                assert(found[k] == other[k]);
                            }
                        },
                    }
                }
            }
        }
    }
}

/// A numeral holds no brace.
proof fn lemma_decimal_brace_free(n: nat)
    ensures
        brace_free(crate::text::decimal(n)),
    decreases n,
{
    if n >= 10 {
        lemma_decimal_brace_free(n / 10);
    }
}

/// No item is completed by chance where the only braces of the template open items and the
/// values hold none; the password, which comes last, may hold any.
pub proof fn law_values_without_braces_fill_cleanly(
    pieces: Seq<TemplatePiece>,
    config: DBConfig,
    host: Seq<char>,
    port: u16,
)
    requires
        braces_open_items(pieces),
        brace_free(config.db@),
        brace_free(host),
        brace_free(config.user@),
    ensures
        items_are_items(pieces),
        fills_cleanly(pieces, config, host, port),
{
    let port_text = crate::text::decimal(port as nat);
    lemma_decimal_brace_free(port as nat);
    let p1 = substituted(pieces, "{db}"@, config.db@);
    let p2 = substituted(p1, "{host}"@, host);
    let p3 = substituted(p2, "{port}"@, port_text);
    let p4 = substituted(p3, "{user}"@, config.user@);
    lemma_braces_open_items(pieces, "{db}"@);
    lemma_braces_open_items(p1, "{host}"@);
    lemma_braces_open_items(p2, "{port}"@);
    lemma_braces_open_items(p3, "{user}"@);
    lemma_braces_open_items(p4, "{pass}"@);
}

/// Every connection description for a PostgreSQL server names the server, and the configured
/// database, user and password, whatever the options are; the options are those configured.
/// Configurations that agree in all of these but the options give settings that do.
pub proof fn law_settings_name_what_is_configured(
    config: DBConfig,
    other: DBConfig,
    host: Seq<char>,
    port: u16,
)
    ensures
        ({
            let settings = settings_for(config, host, port);
            &&& settings.hosts.len() == 1 && settings.hosts[0] == host
            &&& settings.ports.len() == 1 && settings.ports[0] == port
            &&& settings.dbname == Some(config.db@)
            &&& settings.user == Some(config.user@)
            &&& settings.password == Some(vstd::utf8::encode_utf8(config.pass@))
            &&& settings.options is Some <==> config.options is Some
            &&& config.options is Some ==> settings.options->0 == config.options->0@
        }),
        other.db@ == config.db@ && other.user@ == config.user@ && other.pass@ == config.pass@ ==> (
        PostgresSettings {
            options: settings_for(other, host, port).options,
            ..settings_for(config, host, port)
        }) == settings_for(other, host, port),
{
}

/// Both kinds of connection to a PostgreSQL server are described in the same way, and each
/// engine has a target of its own kind, which holds the server and all that is configured.
pub proof fn law_targets_hold_what_is_configured(
    target: ConnectTarget,
    engine: EngineConfig,
    config: DBConfig,
    host: Seq<char>,
    port: u16,
)
    requires
        is_target(target, engine, config, host, port),
    ensures
        target is MySql <==> engine is MySql,
        target is Postgres <==> engine is Postgres,
        target is PostgresExtended <==> engine is PostgresExtended,
        target is External <==> engine is External,
        target matches ConnectTarget::MySql(params) ==> params.host@ == host && params.port == port
            && params.db@ == config.db@ && params.user@ == config.user@ && params.pass@
            == config.pass@,
        target matches ConnectTarget::Postgres(c) ==> {
            &&& postgres_settings(c).hosts == seq![host]
            &&& postgres_settings(c).ports == seq![port]
            &&& postgres_settings(c).dbname == Some(config.db@)
            &&& postgres_settings(c).user == Some(config.user@)
            &&& postgres_settings(c).password == Some(vstd::utf8::encode_utf8(config.pass@))
            &&& is_target(
                ConnectTarget::PostgresExtended(c),
                EngineConfig::PostgresExtended,
                config,
                host,
                port,
            )
        },
        target matches ConnectTarget::PostgresExtended(c) ==> is_target(
            ConnectTarget::Postgres(c),
            EngineConfig::Postgres,
            config,
            host,
            port,
        ),
        target matches ConnectTarget::External(command) ==> command@ == command_for(
            engine->External_0@,
            config,
            host,
            port,
        ),
{
}

/// An address is one of the configuration exactly where its host and its port stand in one
/// entry.
pub proof fn law_addresses_are_pairs(config: DBConfig, host: Seq<char>, port: u16)
    ensures
        config.has_addr(host, port) <==> config.addrs@.map_values(
            |addr: (String, u16)| (addr.0@, addr.1),
        ).contains((host, port)),
{
    let pairs = config.addrs@.map_values(|addr: (String, u16)| (addr.0@, addr.1));
    if config.has_addr(host, port) {
        let i = choose|i: int|
            0 <= i < config.addrs@.len() && (#[trigger] config.addrs@[i]).0@ == host
                && config.addrs@[i].1 == port;
        assert(pairs[i] == (host, port));
    }
    if pairs.contains((host, port)) {
        let i = choose|i: int| 0 <= i < pairs.len() && pairs[i] == (host, port);
        assert(config.addrs@[i].0@ == host);
    }
}

/// Replacing an item leaves an item of another name, or text without a brace, in front as it
/// is.
proof fn lemma_replaced_behind(front: Seq<char>, rest: Seq<char>, item: Seq<char>, value: Seq<char>)
    requires
        is_item(item),
        brace_free(front) || (is_item(front) && front != item),
    ensures
        crate::text::replaced(front + rest, item, value) == front + crate::text::replaced(
            rest,
            item,
            value,
        ),
{
    lemma_items(item, item);
    let whole = front + rest;
    assert forall|i: int| 0 <= i < front.len() implies !#[trigger] occurs(whole, item, i) by {
        if occurs(whole, item, i) {
            let found = whole.subrange(i, i + item.len());
            assert(found[0] == front[i]);
            if !brace_free(front) {
                lemma_items(front, item);
                if i > 0 {
                    assert(front.skip(1)[i - 1] == front[i]);
                } else {
                    let k = choose|k: int|
                        0 <= k < front.len() && k < item.len() && front[k] != item[k];
                    assert(found[k] == front[k]);
                }
            }
        }
    }
    lemma_replaced_text(front, rest, item, value);
}

/// Replacing an item that stands in front puts its value there.
proof fn lemma_replaced_front(rest: Seq<char>, item: Seq<char>, value: Seq<char>)
    requires
        item.len() > 0,
    ensures
        crate::text::replaced(item + rest, item, value) == value + crate::text::replaced(
            rest,
            item,
            value,
        ),
{
    let whole = item + rest;
    assert(whole.take(item.len() as int) =~= item);
    assert(whole.skip(item.len() as int) =~= rest);
}

/// The items are told apart by their text.
proof fn lemma_items_differ()
    ensures
        "{db}"@ != "{host}"@,
        "{db}"@ != "{port}"@,
        "{db}"@ != "{user}"@,
        "{db}"@ != "{pass}"@,
        "{host}"@ != "{port}"@,
        "{host}"@ != "{user}"@,
        "{host}"@ != "{pass}"@,
        "{port}"@ != "{user}"@,
        "{port}"@ != "{pass}"@,
        "{user}"@ != "{pass}"@,
{
    reveal_strlit("{db}");
    reveal_strlit("{host}");
    reveal_strlit("{port}");
    reveal_strlit("{user}");
    reveal_strlit("{pass}");
    assert("{db}"@[1] == 'd');
    assert("{host}"@[1] == 'h');
    assert("{port}"@[1] == 'p' && "{port}"@[2] == 'o');
    assert("{user}"@[1] == 'u');
    assert("{pass}"@[1] == 'p' && "{pass}"@[2] == 'a');
}

/// A command is its template read from left to right: nothing stands for nothing, text without a
/// brace for itself, and each item for its value, which holds no brace; the password may.
pub proof fn law_commands_follow_their_template(
    text: Seq<char>,
    rest: Seq<char>,
    config: DBConfig,
    host: Seq<char>,
    port: u16,
)
    requires
        forall|i: int| 0 <= i < text.len() ==> text[i] != '{',
        forall|i: int| 0 <= i < config.db@.len() ==> config.db@[i] != '{',
        forall|i: int| 0 <= i < host.len() ==> host[i] != '{',
        forall|i: int| 0 <= i < config.user@.len() ==> config.user@[i] != '{',
    ensures
        command_for(Seq::empty(), config, host, port).len() == 0,
        command_for(text + rest, config, host, port) == text + command_for(
            rest,
            config,
            host,
            port,
        ),
        command_for("{db}"@ + rest, config, host, port) == config.db@ + command_for(
            rest,
            config,
            host,
            port,
        ),
        command_for("{host}"@ + rest, config, host, port) == host + command_for(
            rest,
            config,
            host,
            port,
        ),
        command_for("{port}"@ + rest, config, host, port) == crate::text::decimal(port as nat)
            + command_for(rest, config, host, port),
        command_for("{user}"@ + rest, config, host, port) == config.user@ + command_for(
            rest,
            config,
            host,
            port,
        ),
        command_for("{pass}"@ + rest, config, host, port) == config.pass@ + command_for(
            rest,
            config,
            host,
            port,
        ),
{
    reveal_strlit("{db}");
    reveal_strlit("{host}");
    reveal_strlit("{port}");
    reveal_strlit("{user}");
    reveal_strlit("{pass}");
    lemma_items_differ();
    let numeral = crate::text::decimal(port as nat);
    lemma_decimal_brace_free(port as nat);
    let r1 = crate::text::replaced(rest, "{db}"@, config.db@);
    let r2 = crate::text::replaced(r1, "{host}"@, host);
    let r3 = crate::text::replaced(r2, "{port}"@, numeral);
    let r4 = crate::text::replaced(r3, "{user}"@, config.user@);
    lemma_replaced_behind(text, rest, "{db}"@, config.db@);
    lemma_replaced_behind(text, r1, "{host}"@, host);
    lemma_replaced_behind(text, r2, "{port}"@, numeral);
    lemma_replaced_behind(text, r3, "{user}"@, config.user@);
    lemma_replaced_behind(text, r4, "{pass}"@, config.pass@);
    lemma_replaced_front(rest, "{db}"@, config.db@);
    lemma_replaced_behind(config.db@, r1, "{host}"@, host);
    lemma_replaced_behind(config.db@, r2, "{port}"@, numeral);
    lemma_replaced_behind(config.db@, r3, "{user}"@, config.user@);
    lemma_replaced_behind(config.db@, r4, "{pass}"@, config.pass@);
    lemma_replaced_behind("{host}"@, rest, "{db}"@, config.db@);
    lemma_replaced_front(r1, "{host}"@, host);
    lemma_replaced_behind(host, r2, "{port}"@, numeral);
    lemma_replaced_behind(host, r3, "{user}"@, config.user@);
    lemma_replaced_behind(host, r4, "{pass}"@, config.pass@);
    lemma_replaced_behind("{port}"@, rest, "{db}"@, config.db@);
    lemma_replaced_behind("{port}"@, r1, "{host}"@, host);
    lemma_replaced_front(r2, "{port}"@, numeral);
    lemma_replaced_behind(numeral, r3, "{user}"@, config.user@);
    lemma_replaced_behind(numeral, r4, "{pass}"@, config.pass@);
    lemma_replaced_behind("{user}"@, rest, "{db}"@, config.db@);
    lemma_replaced_behind("{user}"@, r1, "{host}"@, host);
    lemma_replaced_behind("{user}"@, r2, "{port}"@, numeral);
    lemma_replaced_front(r3, "{user}"@, config.user@);
    lemma_replaced_behind(config.user@, r4, "{pass}"@, config.pass@);
    lemma_replaced_behind("{pass}"@, rest, "{db}"@, config.db@);
    lemma_replaced_behind("{pass}"@, r1, "{host}"@, host);
    lemma_replaced_behind("{pass}"@, r2, "{port}"@, numeral);
    lemma_replaced_behind("{pass}"@, r3, "{user}"@, config.user@);
    lemma_replaced_front(r4, "{pass}"@, config.pass@);
}

/// In a template that is filled, each item gives way to its own part of the configuration.
pub proof fn law_items_have_their_values(config: DBConfig, host: Seq<char>, port: u16)
    ensures
        filled_piece(TemplatePiece::Item("{db}"@), config, host, port).text() == config.db@,
        filled_piece(TemplatePiece::Item("{host}"@), config, host, port).text() == host,
        crate::text::number_of(
            filled_piece(TemplatePiece::Item("{port}"@), config, host, port).text(),
        ) == port,
        filled_piece(TemplatePiece::Item("{user}"@), config, host, port).text() == config.user@,
        filled_piece(TemplatePiece::Item("{pass}"@), config, host, port).text() == config.pass@,
        forall|text: Seq<char>| #[trigger]
            filled_piece(TemplatePiece::Text(text), config, host, port).text() == text,
{
    lemma_items_differ();
    crate::text::law_numerals_read_back(port as nat);
}

/// The URL of a MySQL server holds the parameters at their places, between separators; what is
/// encoded reads back as it was given.
pub proof fn law_urls_hold_their_parameters(params: ServerParams) -> (parts: (
    Seq<char>,
    Seq<char>,
    Seq<char>,
    Seq<char>,
))
    ensures
        mysql_url(params) == "mysql://"@ + parts.0 + seq![':'] + parts.1 + seq!['@'] + params.host@
            + seq![':'] + parts.2 + seq!['/'] + parts.3,
        crate::text::decoded(parts.0) == vstd::utf8::encode_utf8(params.user@).map_values(
            |b: u8| b as int,
        ),
        crate::text::decoded(parts.1) == vstd::utf8::encode_utf8(params.pass@).map_values(
            |b: u8| b as int,
        ),
        crate::text::number_of(parts.2) == params.port,
        crate::text::decoded(parts.3) == vstd::utf8::encode_utf8(params.db@).map_values(
            |b: u8| b as int,
        ),
{
    reveal_strlit(":");
    reveal_strlit("@");
    reveal_strlit("/");
    assert(":"@ =~= seq![':']);
    assert("@"@ =~= seq!['@']);
    assert("/"@ =~= seq!['/']);
    crate::text::law_encoded_text_reads_back(params.user@);
    crate::text::law_encoded_text_reads_back(params.pass@);
    crate::text::law_encoded_text_reads_back(params.db@);
    crate::text::law_numerals_read_back(params.port as nat);
    (
        crate::text::percent_encoded(params.user@),
        crate::text::percent_encoded(params.pass@),
        crate::text::decimal(params.port as nat),
        crate::text::percent_encoded(params.db@),
    )
}

/// A configuration for another database differs from its origin in the database alone: the
/// settings for a server differ in that, and every address stays one.
pub proof fn law_other_database_keeps_the_rest(
    config: DBConfig,
    other: DBConfig,
    db: Seq<char>,
    host: Seq<char>,
    port: u16,
)
    requires
        is_for_database(other, config, db),
    ensures
        other.db@ == db,
        config.has_addr(host, port) <==> other.has_addr(host, port),
        settings_for(other, host, port) == (PostgresSettings {
            dbname: Some(db),
            ..settings_for(config, host, port)
        }),
{
    law_settings_name_what_is_configured(config, other, host, port);
    law_settings_name_what_is_configured(other, config, host, port);
    law_addresses_are_pairs(config, host, port);
    law_addresses_are_pairs(other, host, port);
}

}
