//! Connection configuration: the definitions, their validation, and the
//! edits that `ssmux config` makes to them.
use vstd::prelude::*;
use vstd::string::*;
use crate::params::{ascending, lemma_put_keeps_order, lookup, pairs_view, put, ParamView, Parameters};
use crate::text::{blank, chars_of, is_blank, sub_text};

verus! {

/// One connection as plain text.
pub struct ConnectionView {
    pub name: Seq<char>,
    pub target: Seq<char>,
    pub region: Option<Seq<char>>,
    pub profile: Option<Seq<char>>,
    pub document_name: Option<Seq<char>>,
    pub keep_on_exit: bool,
    pub parameters: Seq<ParamView>,
    pub extra_args: Seq<Seq<char>>,
}

pub open spec fn opt_view(o: Option<String>) -> Option<Seq<char>> {
    match o {
        Some(s) => Some(s@),
        None => None,
    }
}

pub open spec fn texts_view(v: Seq<String>) -> Seq<Seq<char>> {
    v.map_values(|s: String| s@)
}

/// How one SSM connection is made: `aws ssm start-session` against
/// `target`, with the optional profile, region, document and parameters.
pub struct ConnectionConfig {
    pub name: String,
    pub target: String,
    pub region: Option<String>,
    pub profile: Option<String>,
    pub document_name: Option<String>,
    /// Keep the session running after the TUI exits.
    pub keep_on_exit: bool,
    pub parameters: Parameters,
    pub extra_args: Vec<String>,
}

impl View for ConnectionConfig {
    type V = ConnectionView;

    open spec fn view(&self) -> ConnectionView {
        ConnectionView {
            name: self.name@,
            target: self.target@,
            region: opt_view(self.region),
            profile: opt_view(self.profile),
            document_name: opt_view(self.document_name),
            keep_on_exit: self.keep_on_exit,
            parameters: self.parameters@,
            extra_args: texts_view(self.extra_args@),
        }
    }
}

pub fn copy_opt(o: &Option<String>) -> (r: Option<String>)
    ensures
        opt_view(r) == opt_view(*o),
{
    match o {
        Some(s) => Some(s.clone()),
        None => None,
    }
}

pub fn same_opt(a: &Option<String>, b: &Option<String>) -> (r: bool)
    ensures
        r == (opt_view(*a) == opt_view(*b)),
{
    match a {
        Some(x) => match b {
            Some(y) => *x == *y,
            None => false,
        },
        None => b.is_none(),
    }
}

pub fn copy_texts(v: &Vec<String>) -> (r: Vec<String>)
    ensures
        texts_view(r@) == texts_view(v@),
{
    let mut r: Vec<String> = Vec::new();
    let mut i: usize = 0;
    while i < v.len()
        invariant
            i <= v.len(),
            r.len() == i,
            texts_view(r@) == texts_view(v@).take(i as int),
        decreases v.len() - i,
    {
        let ghost before = r@;
        let t = v[i].clone();
        r.push(t);
        assert(r@ == before.push(t));
        assert(texts_view(r@) =~= texts_view(v@).take(i + 1));
        i = i + 1;
    }
    assert(texts_view(v@).take(i as int) =~= texts_view(v@));
    r
}

pub fn same_texts(a: &Vec<String>, b: &Vec<String>) -> (r: bool)
    ensures
        r == (texts_view(a@) == texts_view(b@)),
{
    if a.len() != b.len() {
        assert(texts_view(a@).len() != texts_view(b@).len());
        return false;
    }
    let mut i: usize = 0;
    while i < a.len()
        invariant
            a.len() == b.len(),
            i <= a.len(),
            forall|j: int| 0 <= j < i ==> a@[j]@ == b@[j]@,
        decreases a.len() - i,
    {
        if !(a[i] == b[i]) {
            assert(texts_view(a@)[i as int] != texts_view(b@)[i as int]);
            return false;
        }
        i = i + 1;
    }
    assert(texts_view(a@) =~= texts_view(b@));
    true
}

impl ConnectionConfig {
    /// An equal copy (what `clone` gives).
    pub fn copy(&self) -> (r: ConnectionConfig)
        ensures
            r@ == self@,
    {
        ConnectionConfig {
            name: self.name.clone(),
            target: self.target.clone(),
            region: copy_opt(&self.region),
            profile: copy_opt(&self.profile),
            document_name: copy_opt(&self.document_name),
            keep_on_exit: self.keep_on_exit,
            parameters: self.parameters.copy(),
            extra_args: copy_texts(&self.extra_args),
        }
    }

    /// Field-by-field equality, as the derived `PartialEq` compares.
    pub fn same_as(&self, other: &ConnectionConfig) -> (r: bool)
        ensures
            r == (self@ == other@),
    {
        self.name == other.name && self.target == other.target && same_opt(
            &self.region,
            &other.region,
        ) && same_opt(&self.profile, &other.profile) && same_opt(
            &self.document_name,
            &other.document_name,
        ) && self.keep_on_exit == other.keep_on_exit && self.parameters.same_as(&other.parameters)
            && same_texts(&self.extra_args, &other.extra_args)
    }
}

/// The whole configuration file: its connections in file order.
pub struct Config {
    pub connections: Vec<ConnectionConfig>,
}

pub open spec fn connections_view(v: Seq<ConnectionConfig>) -> Seq<ConnectionView> {
    v.map_values(|c: ConnectionConfig| c@)
}

impl View for Config {
    type V = Seq<ConnectionView>;

    open spec fn view(&self) -> Seq<ConnectionView> {
        connections_view(self.connections@)
    }
}

/// Why a configuration, or a change to it, is refused.  `T` is the text
/// type: `String` in values, `Seq<char>` in specifications.
#[derive(Debug)]
pub enum ConfigFault<T> {
    /// A connection has a blank name.
    EmptyName,
    /// The named connection has a blank target.
    EmptyTarget(T),
    /// Two connections share this name.
    DuplicateName(T),
    /// The named connection has a blank parameter name or value.
    EmptyParameter(T),
    /// This `KEY=VALUE` argument has no `=`.
    ParameterFormat(T),
    /// This `KEY=VALUE` argument has a blank key or value.
    ParameterBlank(T),
    /// This parameter key is given twice.
    DuplicateParameter(T),
    /// A connection with this name exists already.
    AlreadyExists(T),
    /// No connection has this name.
    UnknownConnection(T),
}

pub type ConfigError = ConfigFault<String>;

impl View for ConfigFault<String> {
    type V = ConfigFault<Seq<char>>;

    open spec fn view(&self) -> ConfigFault<Seq<char>> {
        match self {
            ConfigFault::EmptyName => ConfigFault::EmptyName,
            ConfigFault::EmptyTarget(t) => ConfigFault::EmptyTarget(t@),
            ConfigFault::DuplicateName(t) => ConfigFault::DuplicateName(t@),
            ConfigFault::EmptyParameter(t) => ConfigFault::EmptyParameter(t@),
            ConfigFault::ParameterFormat(t) => ConfigFault::ParameterFormat(t@),
            ConfigFault::ParameterBlank(t) => ConfigFault::ParameterBlank(t@),
            ConfigFault::DuplicateParameter(t) => ConfigFault::DuplicateParameter(t@),
            ConfigFault::AlreadyExists(t) => ConfigFault::AlreadyExists(t@),
            ConfigFault::UnknownConnection(t) => ConfigFault::UnknownConnection(t@),
        }
    }
}

/// The text of the error that a fault is reported with.
pub open spec fn fault_message(f: ConfigFault<Seq<char>>) -> Seq<char> {
    match f {
        ConfigFault::EmptyName => "connection names cannot be empty"@,
        ConfigFault::EmptyTarget(n) => "connection "@ + n + " has an empty target"@,
        ConfigFault::DuplicateName(n) => "duplicate connection name: "@ + n,
        ConfigFault::EmptyParameter(n) => "connection "@ + n
            + " has an empty parameter name or value"@,
        ConfigFault::ParameterFormat(v) => "parameter must use KEY=VALUE: "@ + v,
        ConfigFault::ParameterBlank(v) => "parameter must have a non-empty key and value: "@ + v,
        ConfigFault::DuplicateParameter(k) => "duplicate parameter: "@ + k,
        ConfigFault::AlreadyExists(n) => "connection already exists: "@ + n,
        ConfigFault::UnknownConnection(n) => "unknown connection: "@ + n,
    }
}

/// `prefix` followed by `text`.
pub fn joined(prefix: &str, text: &str) -> (r: String)
    ensures
        r@ == prefix@ + text@,
{
    let mut r = String::from_str(prefix);
    r.append(text);
    r
}

/// `prefix`, `text`, then `suffix`.
pub fn joined3(prefix: &str, text: &str, suffix: &str) -> (r: String)
    ensures
        r@ == prefix@ + text@ + suffix@,
{
    let mut r = String::from_str(prefix);
    r.append(text);
    r.append(suffix);
    r
}

impl ConfigFault<String> {
    pub fn message(&self) -> (r: String)
        ensures
            r@ == fault_message(self@),
    {
        match self {
            ConfigFault::EmptyName => String::from_str("connection names cannot be empty"),
            ConfigFault::EmptyTarget(n) => joined3("connection ", n.as_str(), " has an empty target"),
            ConfigFault::DuplicateName(n) => joined("duplicate connection name: ", n.as_str()),
            ConfigFault::EmptyParameter(n) => joined3(
                "connection ",
                n.as_str(),
                " has an empty parameter name or value",
            ),
            ConfigFault::ParameterFormat(v) => joined("parameter must use KEY=VALUE: ", v.as_str()),
            ConfigFault::ParameterBlank(v) => joined(
                "parameter must have a non-empty key and value: ",
                v.as_str(),
            ),
            ConfigFault::DuplicateParameter(k) => joined("duplicate parameter: ", k.as_str()),
            ConfigFault::AlreadyExists(n) => joined("connection already exists: ", n.as_str()),
            ConfigFault::UnknownConnection(n) => joined("unknown connection: ", n.as_str()),
        }
    }
}

/// Some parameter of the listing has a blank name or value.
pub open spec fn has_blank_parameter(p: Seq<ParamView>) -> bool {
    exists|k: int| 0 <= k < p.len() && (blank(#[trigger] p[k].0) || blank(p[k].1))
}

/// Some connection before index `i` is named `name`.
pub open spec fn named_before(conns: Seq<ConnectionView>, i: int, name: Seq<char>) -> bool {
    exists|j: int| 0 <= j < i && #[trigger] conns[j].name == name
}

/// What is wrong with connection `i`, given the ones before it.
pub open spec fn connection_fault(conns: Seq<ConnectionView>, i: int) -> Option<
    ConfigFault<Seq<char>>,
> {
    let c = conns[i];
    if blank(c.name) {
        Some(ConfigFault::EmptyName)
    } else if blank(c.target) {
        Some(ConfigFault::EmptyTarget(c.name))
    } else if named_before(conns, i, c.name) {
        Some(ConfigFault::DuplicateName(c.name))
    } else if has_blank_parameter(c.parameters) {
        Some(ConfigFault::EmptyParameter(c.name))
    } else {
        None
    }
}

/// The first fault among the first `n` connections, in file order.
pub open spec fn first_fault(conns: Seq<ConnectionView>, n: int) -> Option<ConfigFault<Seq<char>>>
    decreases n,
{
    if n <= 0 {
        None
    } else {
        match first_fault(conns, n - 1) {
            Some(f) => Some(f),
            None => connection_fault(conns, n - 1),
        }
    }
}

/// The fault that validation reports, if any.
pub open spec fn config_fault(conns: Seq<ConnectionView>) -> Option<ConfigFault<Seq<char>>> {
    first_fault(conns, conns.len() as int)
}

/// A sound configuration: every name and target non-blank, names distinct,
/// and no parameter name or value blank.
pub open spec fn sound_config(conns: Seq<ConnectionView>) -> bool {
    &&& forall|i: int| 0 <= i < conns.len() ==> !blank(#[trigger] conns[i].name)
    &&& forall|i: int| 0 <= i < conns.len() ==> !blank(#[trigger] conns[i].target)
    &&& forall|i: int, j: int|
        0 <= i < j < conns.len() ==> #[trigger] conns[i].name != #[trigger] conns[j].name
    &&& forall|i: int| 0 <= i < conns.len() ==> !has_blank_parameter(#[trigger] conns[i].parameters)
}

proof fn lemma_first_fault_none(conns: Seq<ConnectionView>, n: int)
    requires
        0 <= n <= conns.len(),
    ensures
        first_fault(conns, n) is None <==> forall|i: int|
            0 <= i < n ==> #[trigger] connection_fault(conns, i) is None,
    decreases n,
{
    if n > 0 {
        lemma_first_fault_none(conns, n - 1);
    }
}

proof fn lemma_first_fault_stays(conns: Seq<ConnectionView>, i: int, n: int)
    requires
        0 <= i < n,
        first_fault(conns, i + 1) is Some,
    ensures
        first_fault(conns, n) == first_fault(conns, i + 1),
    decreases n,
{
    if n > i + 1 {
        lemma_first_fault_stays(conns, i, n - 1);
    }
}

proof fn lemma_fault_at(conns: Seq<ConnectionView>, i: int)
    requires
        0 <= i < conns.len(),
        first_fault(conns, i) is None,
        connection_fault(conns, i) is Some,
    ensures
        config_fault(conns) == connection_fault(conns, i),
{
    lemma_first_fault_stays(conns, i, conns.len() as int);
}

/// Dropping connections from a valid configuration, or reordering them,
/// keeps it valid.  `kept[i]` is the connection at `place(i)` in `all`, and
/// no two connections of `kept` come from the same place.
pub proof fn lemma_validation_survives_removal(
    kept: Seq<ConnectionView>,
    all: Seq<ConnectionView>,
    place: spec_fn(int) -> int,
)
    requires
        config_fault(all) is None,
        forall|i: int|
            0 <= i < kept.len() ==> 0 <= #[trigger] place(i) < all.len() && kept[i] == all[place(
                i,
            )],
        forall|i: int, j: int| 0 <= i < j < kept.len() ==> #[trigger] place(i) != #[trigger] place(j),
    ensures
        config_fault(kept) is None,
{
    lemma_validation_accepts_sound(all);
    assert forall|i: int| 0 <= i < kept.len() implies !blank(#[trigger] kept[i].name) by {
        assert(kept[i] == all[place(i)]);
    }
    assert forall|i: int| 0 <= i < kept.len() implies !blank(#[trigger] kept[i].target) by {
        assert(kept[i] == all[place(i)]);
    }
    assert forall|i: int| 0 <= i < kept.len() implies !has_blank_parameter(
        #[trigger] kept[i].parameters,
    ) by {
        assert(kept[i] == all[place(i)]);
    }
    assert forall|i: int, j: int|
        0 <= i < j < kept.len() implies #[trigger] kept[i].name != #[trigger] kept[j].name by {
        let a = place(i);
        let b = place(j);
        assert(a != b);
        if a < b {
            assert(all[a].name != all[b].name);
        } else {
            assert(all[b].name != all[a].name);
        }
    }
    assert(sound_config(kept));
    lemma_validation_accepts_sound(kept);
}

/// Validation accepts exactly the sound configurations.
pub proof fn lemma_validation_accepts_sound(conns: Seq<ConnectionView>)
    ensures
        config_fault(conns) is None <==> sound_config(conns),
{
    lemma_first_fault_none(conns, conns.len() as int);
    if config_fault(conns) is None {
        assert forall|i: int, j: int| 0 <= i < j < conns.len() implies #[trigger] conns[i].name
            != #[trigger] conns[j].name by {
            assert(connection_fault(conns, j) is None);
            if conns[i].name == conns[j].name {
                assert(named_before(conns, j, conns[j].name));
            }
        }
        assert forall|i: int| 0 <= i < conns.len() implies !blank(#[trigger] conns[i].name) by {
            assert(connection_fault(conns, i) is None);
        }
        assert forall|i: int| 0 <= i < conns.len() implies !blank(#[trigger] conns[i].target) by {
            assert(connection_fault(conns, i) is None);
        }
        assert forall|i: int| 0 <= i < conns.len() implies !has_blank_parameter(
            #[trigger] conns[i].parameters,
        ) by {
            assert(connection_fault(conns, i) is None);
        }
    }
    if sound_config(conns) {
        assert forall|i: int| 0 <= i < conns.len() implies #[trigger] connection_fault(conns, i)
            is None by {
            assert(!blank(conns[i].name));
            assert(!blank(conns[i].target));
            assert(!has_blank_parameter(conns[i].parameters));
            if named_before(conns, i, conns[i].name) {
                let j = choose|j: int| 0 <= j < i && #[trigger] conns[j].name == conns[i].name;
                assert(conns[j].name != conns[i].name);
            }
        }
    }
}

fn blank_parameter(p: &Parameters) -> (r: bool)
    ensures
        r == has_blank_parameter(p@),
{
    let entries = p.entries();
    let mut k: usize = 0;
    while k < entries.len()
        invariant
            pairs_view(entries@) == p@,
            k <= entries.len(),
            p@.len() == entries.len(),
            forall|j: int| 0 <= j < k ==> !(blank(#[trigger] p@[j].0) || blank(p@[j].1)),
        decreases entries.len() - k,
    {
        assert(p@[k as int] == (entries@[k as int].0@, entries@[k as int].1@));
        assert(p@[k as int].0 == entries@[k as int].0@);
        assert(p@[k as int].1 == entries@[k as int].1@);
        if is_blank(entries[k].0.as_str()) || is_blank(entries[k].1.as_str()) {
            return true;
        }
        k = k + 1;
    }
    false
}

impl Config {
    /// The configuration with no connections.
    pub fn empty() -> (r: Config)
        ensures
            r@ == Seq::<ConnectionView>::empty(),
    {
        let r = Config { connections: Vec::new() };
        assert(r@ =~= Seq::<ConnectionView>::empty());
        r
    }

    pub fn copy(&self) -> (r: Config)
        ensures
            r@ == self@,
    {
        let mut v: Vec<ConnectionConfig> = Vec::new();
        let mut i: usize = 0;
        while i < self.connections.len()
            invariant
                i <= self.connections.len(),
                v.len() == i,
                connections_view(v@) == self@.take(i as int),
            decreases self.connections.len() - i,
        {
            let ghost before = v@;
            let c = self.connections[i].copy();
            v.push(c);
            assert(v@ == before.push(c));
            assert(connections_view(v@) =~= self@.take(i + 1));
            i = i + 1;
        }
        assert(self@.take(i as int) =~= self@);
        Config { connections: v }
    }

    /// Checks the configuration: the first connection, in file order, with
    /// a blank name, a blank target, a name used before it, or a blank
    /// parameter name or value is reported.
    pub fn validate(&self) -> (r: Result<(), ConfigError>)
        ensures
            r is Ok <==> config_fault(self@) is None,
            r matches Err(e) ==> config_fault(self@) == Some(e@),
    {
        let n = self.connections.len();
        let mut i: usize = 0;
        while i < n
            invariant
                n == self.connections.len(),
                i <= n,
                first_fault(self@, i as int) is None,
            decreases n - i,
        {
            let c = &self.connections[i];
            assert(self@[i as int] == c@);
            if is_blank(c.name.as_str()) {
                proof {
                    lemma_fault_at(self@, i as int);
                }
                return Err(ConfigFault::EmptyName);
            }
            if is_blank(c.target.as_str()) {
                proof {
                    lemma_fault_at(self@, i as int);
                }
                return Err(ConfigFault::EmptyTarget(c.name.clone()));
            }
            let mut j: usize = 0;
            while j < i
                invariant
                    n == self.connections.len(),
                    j <= i < n,
                    c@ == self@[i as int],
                    first_fault(self@, i as int) is None,
                    !blank(c@.name),
                    !blank(c@.target),
                    forall|k: int| 0 <= k < j ==> self@[k].name != c@.name,
                decreases i - j,
            {
                assert(self@[j as int] == self.connections[j as int]@);
                if self.connections[j].name == c.name {
                    assert(self@[j as int].name == c@.name);
                    assert(named_before(self@, i as int, c@.name));
                    proof {
                        lemma_fault_at(self@, i as int);
                    }
                    return Err(ConfigFault::DuplicateName(c.name.clone()));
                }
                j = j + 1;
            }
            if blank_parameter(&c.parameters) {
                proof {
                    lemma_fault_at(self@, i as int);
                }
                return Err(ConfigFault::EmptyParameter(c.name.clone()));
            }
            i = i + 1;
        }
        Ok(())
    }

    /// The configuration as read from its file: kept when it validates.
    pub fn load(parsed: Config) -> (r: Result<Config, ConfigError>)
        ensures
            r is Ok <==> config_fault(parsed@) is None,
            r matches Ok(c) ==> c@ == parsed@,
            r matches Err(e) ==> config_fault(parsed@) == Some(e@),
    {
        match parsed.validate() {
            Ok(()) => Ok(parsed),
            Err(e) => Err(e),
        }
    }

    /// The configuration when its file may be missing (`found` is `None`):
    /// the empty configuration then, else as `load` gives it.
    pub fn load_or_default(found: Option<Config>) -> (r: Result<Config, ConfigError>)
        ensures
            found is None ==> (r matches Ok(c) && c@.len() == 0),
            found matches Some(p) ==> {
                &&& r is Ok <==> config_fault(p@) is None
                &&& r matches Ok(c) ==> c@ == p@
                &&& r matches Err(e) ==> config_fault(p@) == Some(e@)
            },
    {
        match found {
            Some(parsed) => Config::load(parsed),
            None => Ok(Config::empty()),
        }
    }
}

/// `v` split around its first `sep`, as `str::split_once` splits it.
pub open spec fn split_once(v: Seq<char>, sep: char) -> Option<(Seq<char>, Seq<char>)>
    decreases v.len(),
{
    if v.len() == 0 {
        None
    } else if v[0] == sep {
        Some((Seq::empty(), v.drop_first()))
    } else {
        match split_once(v.drop_first(), sep) {
            Some((a, b)) => Some((seq![v[0]] + a, b)),
            None => None,
        }
    }
}

proof fn lemma_split_at(v: Seq<char>, sep: char, i: int)
    requires
        0 <= i <= v.len(),
        forall|j: int| 0 <= j < i ==> v[j] != sep,
    ensures
        i < v.len() && v[i] == sep ==> split_once(v, sep) == Some(
            (v.take(i), v.skip(i + 1)),
        ),
        i == v.len() ==> split_once(v, sep) is None,
    decreases i,
{
    if i > 0 {
        let t = v.drop_first();
        lemma_split_at(t, sep, i - 1);
        assert(t.take(i - 1) =~= v.take(i).drop_first());
        assert(v.take(i) =~= seq![v[0]] + t.take(i - 1));
        if i < v.len() {
            assert(t.skip(i) =~= v.skip(i + 1));
        }
    } else {
        assert(v.take(0) =~= Seq::<char>::empty());
        if v.len() > 0 {
            assert(v.skip(1) =~= v.drop_first());
        }
    }
}

/// The parameters that `KEY=VALUE` arguments give, read in order: the
/// first argument without `=`, with a blank key or value, or with a key
/// given before, is the fault.
pub open spec fn parse_params(values: Seq<Seq<char>>) -> Result<Seq<ParamView>, ConfigFault<Seq<char>>>
    decreases values.len(),
{
    if values.len() == 0 {
        Ok(Seq::empty())
    } else {
        match parse_params(values.drop_last()) {
            Err(f) => Err(f),
            Ok(acc) => {
                let v = values.last();
                match split_once(v, '=') {
                    None => Err(ConfigFault::ParameterFormat(v)),
                    Some((k, p)) => if blank(k) || blank(p) {
                        Err(ConfigFault::ParameterBlank(v))
                    } else if lookup(acc, k) is Some {
                        Err(ConfigFault::DuplicateParameter(k))
                    } else {
                        Ok(put(acc, k, p))
                    },
                }
            },
        }
    }
}

proof fn lemma_parse_err_stays(values: Seq<Seq<char>>, i: int, n: int)
    requires
        0 <= i <= n <= values.len(),
        parse_params(values.take(i)) is Err,
    ensures
        parse_params(values.take(n)) == parse_params(values.take(i)),
    decreases n,
{
    if n > i {
        lemma_parse_err_stays(values, i, n - 1);
        assert(values.take(n).drop_last() =~= values.take(n - 1));
    }
}

/// Reads repeated `KEY=VALUE` arguments into a parameter map.
pub fn parse_parameters(values: &Vec<String>) -> (r: Result<Parameters, ConfigError>)
    ensures
        parse_params(texts_view(values@)) matches Ok(p) ==> (r matches Ok(q) && q@ == p),
        parse_params(texts_view(values@)) matches Err(f) ==> (r matches Err(e) && e@ == f),
{
    let ghost all = texts_view(values@);
    let mut parameters = Parameters::new();
    let mut i: usize = 0;
    assert(all.take(0) =~= Seq::<Seq<char>>::empty());
    while i < values.len()
        invariant
            all == texts_view(values@),
            i <= values.len(),
            parse_params(all.take(i as int)) == Ok::<Seq<ParamView>, ConfigFault<Seq<char>>>(parameters@),
        decreases values.len() - i,
    {
        let value = &values[i];
        let ghost pre = all.take(i + 1);
        assert(pre.drop_last() =~= all.take(i as int));
        assert(pre.last() == value@);
        let v = chars_of(value.as_str());
        let mut j: usize = 0;
        while j < v.len() && v[j] != '='
            invariant
                v@ == value@,
                j <= v.len(),
                forall|k: int| 0 <= k < j ==> v@[k] != '=',
            decreases v.len() - j,
        {
            j = j + 1;
        }
        proof {
            lemma_split_at(v@, '=', j as int);
        }
        if j == v.len() {
            proof {
                lemma_parse_err_stays(all, i + 1, all.len() as int);
                assert(all.take(all.len() as int) =~= all);
            }
            return Err(ConfigFault::ParameterFormat(value.clone()));
        }
        let key = sub_text(&v, 0, j);
        let parameter = sub_text(&v, j + 1, v.len());
        assert(key@ =~= v@.take(j as int));
        assert(parameter@ =~= v@.skip(j + 1));
        if is_blank(key.as_str()) || is_blank(parameter.as_str()) {
            proof {
                lemma_parse_err_stays(all, i + 1, all.len() as int);
                assert(all.take(all.len() as int) =~= all);
            }
            return Err(ConfigFault::ParameterBlank(value.clone()));
        }
        let ghost k = key@;
        let ghost before = parameters@;
        let previous = parameters.insert(key.clone(), parameter);
        if previous.is_some() {
            proof {
                lemma_parse_err_stays(all, i + 1, all.len() as int);
                assert(all.take(all.len() as int) =~= all);
            }
            return Err(ConfigFault::DuplicateParameter(key));
        }
        i = i + 1;
    }
    assert(all.take(values.len() as int) =~= all);
    Ok(parameters)
}

/// The template that `ssmux init` writes: a commented example with one
/// background connection, `demo-stage`, forwarding local port 10022 to
/// port 22 of its target.
pub fn example_config() -> (r: &'static str)
    ensures
        r@ == "# ssmux connection configuration\n# Run `ssmux` after editing this file to open the TUI.\n# Add connections from the TUI with `n`, or use `ssmux config add`.\n\n[[connections]]\nname = \"demo-stage\"\ntarget = \"i-0deadbeefdeadbeef0\"\nregion = \"us-west-2\"\ndocument_name = \"AWS-StartPortForwardingSession\"\nkeep_on_exit = true\n\n[connections.parameters]\nportNumber = \"22\"\nlocalPortNumber = \"10022\"\n"@,
{
    "# ssmux connection configuration\n# Run `ssmux` after editing this file to open the TUI.\n# Add connections from the TUI with `n`, or use `ssmux config add`.\n\n[[connections]]\nname = \"demo-stage\"\ntarget = \"i-0deadbeefdeadbeef0\"\nregion = \"us-west-2\"\ndocument_name = \"AWS-StartPortForwardingSession\"\nkeep_on_exit = true\n\n[connections.parameters]\nportNumber = \"22\"\nlocalPortNumber = \"10022\"\n"
}

} // verus!
