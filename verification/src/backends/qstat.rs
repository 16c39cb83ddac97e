//! The reference probing backend: it parameterizes an external probing
//! tool from a game's backend settings, and turns the tool's JSON output
//! into a server set. The subprocess itself runs outside the library; the
//! settings validation, the command line, the exit-status interpretation
//! and the output parsing are verified here.

use vstd::prelude::*;

verus! {

use crate::addr::{spec_parse_addr, parse_server_addr, ServerAddr};
use crate::errors::Error;
use crate::json::{json_of, parse_json, value_as_array, value_as_str, value_get, JTree};
use crate::models::{Config, ConfStorage, ConfValue, ServerData, ServerEntry, SettingVal,
    all_str, strs_of};
use crate::text::{dec_signed, i64_to_string, join_spaced, joined_spaced, lower_of,
    to_lowercase};
use vstd::utf8::{decode_utf8, valid_utf8};

/// The probing backend. Its blocking subprocess work runs outside the
/// library: a caller asks `prepare` for the invocation, runs the tool,
/// and hands the outcome to `interpret_output`.
pub struct Backend;

/// The rule-filter text of an ordered rule list: `,key=value` for each
/// rule in order.
pub open spec fn rule_text(rules: Seq<(Seq<char>, Seq<char>)>) -> Seq<char>
    decreases rules.len(),
{
    if rules.len() == 0 {
        Seq::empty()
    } else {
        rule_text(rules.drop_last()) + seq![','] + rules.last().0 + seq!['='] + rules.last().1
    }
}

/// Builds the rule-filter string: `,key=value` for every rule, in the
/// order given — deterministic per input.
pub fn make_rulestring(rules: &Vec<(String, String)>) -> (r: String)
    ensures
        r@ == rule_text(rules@.map_values(|p: (String, String)| (p.0@, p.1@))),
{
    let ghost pairs = rules@.map_values(|p: (String, String)| (p.0@, p.1@));
    let mut out = String::new();
    let mut i: usize = 0;
    while i < rules.len()
        invariant
            0 <= i <= rules@.len(),
            pairs == rules@.map_values(|p: (String, String)| (p.0@, p.1@)),
            out@ == rule_text(pairs.take(i as int)),
        decreases rules@.len() - i,
    {
        proof {
            reveal_strlit(",");
            reveal_strlit("=");
        }
        out.append(",");
        out.append(rules[i].0.as_str());
        out.append("=");
        out.append(rules[i].1.as_str());
        proof {
            assert(pairs.take(i + 1).drop_last() =~= pairs.take(i as int));
            assert(pairs.take(i + 1).last() == pairs[i as int]);
            assert(","@ =~= seq![',']) by {
                reveal_strlit(",");
            }
            assert("="@ =~= seq!['=']) by {
                reveal_strlit("=");
            }
            assert(out@ =~= rule_text(pairs.take(i + 1)));
        }
        i += 1;
    }
    proof {
        assert(pairs.take(pairs.len() as int) =~= pairs);
    }
    out
}

/// Builds the fixed probe-tool parameter list: JSON output, UTF-8, no
/// probe limit, recursive master resolution, player records, the typed
/// master token with the rule filter, then the space-joined master URIs.
pub fn make_qstat_cmd_params(
    master_type: &str,
    rules: &Vec<(String, String)>,
    master_server_uri: &Vec<String>,
) -> (r: Vec<String>)
    ensures
        r@.len() == 8,
        r@[0]@ == "-json"@,
        r@[1]@ == "-utf8"@,
        r@[2]@ == "-maxsim"@,
        r@[3]@ == "9999"@,
        r@[4]@ == "-R"@,
        r@[5]@ == "-P"@,
        r@[6]@ == seq!['-'] + lower_of(master_type@) + rule_text(
            rules@.map_values(|p: (String, String)| (p.0@, p.1@)),
        ),
        r@[7]@ == joined_spaced(master_server_uri@.map_values(|s: String| s@)),
{
    let rulestring = make_rulestring(rules);
    let mut cmd: Vec<String> = Vec::new();
    cmd.push("-json".to_owned());
    cmd.push("-utf8".to_owned());
    cmd.push("-maxsim".to_owned());
    cmd.push("9999".to_owned());
    cmd.push("-R".to_owned());
    cmd.push("-P".to_owned());
    let mut typed = String::new();
    proof {
        reveal_strlit("-");
    }
    typed.append("-");
    let lowered = to_lowercase(master_type);
    typed.append(lowered.as_str());
    typed.append(rulestring.as_str());
    proof {
        assert("-"@ =~= seq!['-']) by {
            reveal_strlit("-");
        }
        assert(typed@ =~= seq!['-'] + lower_of(master_type@) + rule_text(
            rules@.map_values(|p: (String, String)| (p.0@, p.1@)),
        ));
    }
    cmd.push(typed);
    cmd.push(join_spaced(master_server_uri));
    cmd
}

/// Reads an array-of-string value out of a dynamically typed value, as
/// probe settings want it.
pub fn get_string_array(v: &ConfValue) -> (r: Result<Vec<String>, Error>)
    ensures
        match r {
            Ok(out) => v@ matches SettingVal::Arr(a) && all_str(a) && out@.map_values(
                |s: String| s@,
            ) == strs_of(a),
            Err(e) => e matches Error::DataParseError(m) && match v@ {
                SettingVal::Arr(a) => !all_str(a) && m@ == "Not a string"@,
                _ => m@ == "Not a valid array of strings"@,
            },
        },
{
    match v {
        ConfValue::Arr(items) => {
            let ghost a = v@->Arr_0;
            let mut out: Vec<String> = Vec::new();
            let mut i: usize = 0;
            while i < items.len()
                invariant
                    0 <= i <= items@.len(),
                    out@.len() == i,
                    v@ == SettingVal::Arr(a),
                    a == Seq::new(items@.len(), |j: int| items@[j]@),
                    forall|j: int| 0 <= j < i ==> a[j] is Str,
                    forall|j: int| 0 <= j < i ==> (#[trigger] out@[j])@ == a[j]->Str_0,
                decreases items@.len() - i,
            {
                match &items[i] {
                    crate::models::ConfElem::Str(s) => {
                        out.push(s.clone());
                    },
                    _ => {
                        proof {
                            assert(!(a[i as int] is Str));
                            assert(!all_str(a));
                        }
                        return Err(Error::DataParseError("Not a string".to_owned()));
                    },
                }
                i += 1;
            }
            proof {
                assert(all_str(a));
                assert(out@.map_values(|s: String| s@) =~= strs_of(a));
            }
            Ok(out)
        },
        _ => Err(Error::DataParseError("Not a valid array of strings".to_owned())),
    }
}

} // verus!

verus! {

/// The validated settings a probe invocation needs, read out of a game's
/// backend-type configuration store.
pub struct QuerySettings {
    pub qstat_path: String,
    pub master_type: String,
    pub server_type: String,
    pub master_server_uri: Vec<String>,
    pub qstat_game_type: Option<String>,
}

/// Whether a settings store holds everything the probe needs, each under
/// its required type.
pub open spec fn settings_ok(m: Map<Seq<char>, SettingVal>) -> bool {
    &&& m.dom().contains("qstat_path"@) && m["qstat_path"@] is Str
    &&& m.dom().contains("qstat_master_type"@) && m["qstat_master_type"@] is Str
    &&& m.dom().contains("qstat_server_type"@) && m["qstat_server_type"@] is Str
    &&& m.dom().contains("master_server_uri"@) && (m["master_server_uri"@] matches SettingVal::Arr(
        a,
    ) && all_str(a))
}

/// The error a fail-fast read of the probe settings reports: the first
/// missing or mistyped key, in reading order.
pub open spec fn settings_err(m: Map<Seq<char>, SettingVal>, e: Error) -> bool {
    if !m.dom().contains("qstat_path"@) {
        e matches Error::InvalidSettingKey(k) && k@ == "qstat_path"@
    } else if !(m["qstat_path"@] is Str) {
        e matches Error::SettingTypeMismatch(k) && k@ == "qstat_path"@
    } else if !m.dom().contains("qstat_master_type"@) {
        e matches Error::InvalidSettingKey(k) && k@ == "qstat_master_type"@
    } else if !(m["qstat_master_type"@] is Str) {
        e matches Error::SettingTypeMismatch(k) && k@ == "qstat_master_type"@
    } else if !m.dom().contains("qstat_server_type"@) {
        e matches Error::InvalidSettingKey(k) && k@ == "qstat_server_type"@
    } else if !(m["qstat_server_type"@] is Str) {
        e matches Error::SettingTypeMismatch(k) && k@ == "qstat_server_type"@
    } else if !m.dom().contains("master_server_uri"@) {
        e matches Error::InvalidSettingKey(k) && k@ == "master_server_uri"@
    } else {
        match m["master_server_uri"@] {
            SettingVal::Arr(a) => !all_str(a) && (e matches Error::SettingTypeMismatch(k) && k@
                == "Multi-type array detected: "@ + "master_server_uri"@),
            _ => e matches Error::SettingTypeMismatch(k) && k@ == "master_server_uri"@,
        }
    }
}

impl QuerySettings {
    /// Reads and validates the probe settings out of a store, failing
    /// fast on the first missing or mistyped key. The optional game-type
    /// setting is taken only when present as a string.
    pub fn try_from(v: &ConfStorage) -> (r: Result<QuerySettings, Error>)
        ensures
            r matches Ok(qs) ==> settings_ok(v@) && qs.qstat_path@ == v@["qstat_path"@]->Str_0
                && qs.master_type@ == v@["qstat_master_type"@]->Str_0 && qs.server_type@
                == v@["qstat_server_type"@]->Str_0 && qs.master_server_uri@.map_values(
                |s: String| s@,
            ) == strs_of(v@["master_server_uri"@]->Arr_0) && (match qs.qstat_game_type {
                Some(g) => v@.dom().contains("qstat_game_type"@) && v@["qstat_game_type"@]
                    == SettingVal::Str(g@),
                None => !v@.dom().contains("qstat_game_type"@) || !(v@["qstat_game_type"@]
                    is Str),
            }),
            r matches Err(e) ==> !settings_ok(v@) && settings_err(v@, e),
    {
        let qstat_path: String = match v.get_or_err("qstat_path") {
            Ok(s) => s,
            Err(e) => {
                return Err(e);
            },
        };
        let master_type: String = match v.get_or_err("qstat_master_type") {
            Ok(s) => s,
            Err(e) => {
                return Err(e);
            },
        };
        let server_type: String = match v.get_or_err("qstat_server_type") {
            Ok(s) => s,
            Err(e) => {
                return Err(e);
            },
        };
        let master_server_uri: Vec<String> = match v.get_or_err("master_server_uri") {
            Ok(s) => s,
            Err(e) => {
                return Err(e);
            },
        };
        let qstat_game_type: Option<String> = match v.get("qstat_game_type") {
            Some(cv) => match cv {
                ConfValue::Str(s) => Some(s.clone()),
                _ => None,
            },
            None => None,
        };
        Ok(
            QuerySettings {
                qstat_path,
                master_type,
                server_type,
                master_server_uri,
                qstat_game_type,
            },
        )
    }
}

/// The rule list a query sends: at most the optional game-type rule.
pub open spec fn game_rules(qs: QuerySettings) -> Seq<(Seq<char>, Seq<char>)> {
    match qs.qstat_game_type {
        Some(g) => seq![("qstat_game_type"@, g@)],
        None => Seq::empty(),
    }
}

/// The parameter list of a probe invocation, as character sequences.
pub open spec fn qstat_cmd_views(qs: QuerySettings) -> Seq<Seq<char>> {
    seq![
        "-json"@,
        "-utf8"@,
        "-maxsim"@,
        "9999"@,
        "-R"@,
        "-P"@,
        seq!['-'] + lower_of(qs.master_type@) + rule_text(game_rules(qs)),
        joined_spaced(qs.master_server_uri@.map_values(|s: String| s@)),
    ]
}

/// A ready-to-run probe invocation: the tool to start and its single
/// argument string.
pub struct QStatInvocation {
    pub program: String,
    pub argument: String,
}

/// What an external probe run reports back: whether the process exited
/// successfully, its exit code if it exited (none when a signal killed
/// it), and its captured standard output.
pub struct ProbeOutput {
    pub success: bool,
    pub exit_code: Option<i64>,
    pub stdout: Vec<u8>,
}

/// The message of the error a failed probe process reports.
pub open spec fn exit_message(code: Option<i64>) -> Seq<char> {
    match code {
        Some(c) => "QStat exited with status: "@ + dec_signed(c as int),
        None => "QStat killed by a signal"@,
    }
}

/// Whether a record carries nothing beyond its address.
pub open spec fn bare_record(rec: ServerEntry) -> bool {
    &&& rec.protocol is None && rec.name is None && rec.hostname is None && rec.map is None
    &&& rec.num_players is None && rec.max_players is None
    &&& rec.num_spectators is None && rec.max_spectators is None && rec.ping is None
    &&& rec.rules@.len() == 0 && rec.players@.len() == 0
}

/// The address a server object of the probe's JSON output names, when its
/// `address` member is a string of the address grammar.
pub open spec fn addr_of_elem(t: JTree) -> Option<ServerAddr> {
    match t {
        JTree::Obj(m) => if m.dom().contains("address"@) {
            match m["address"@] {
                JTree::Str(s) => spec_parse_addr(s),
                _ => None,
            }
        } else {
            None
        },
        _ => None,
    }
}

/// The addresses of all server objects with a parsable address; an entry
/// without one is skipped, not fatal.
pub open spec fn parsed_addrs(elems: Seq<JTree>) -> Set<ServerAddr>
    decreases elems.len(),
{
    if elems.len() == 0 {
        Set::empty()
    } else {
        match addr_of_elem(elems.last()) {
            Some(a) => parsed_addrs(elems.drop_last()).insert(a),
            None => parsed_addrs(elems.drop_last()),
        }
    }
}

/// What `parse` returns on a given text: a record set holding exactly the
/// parsable addresses of a JSON array of server objects, or a
/// `DataParseError` when the text is not valid JSON or not an array.
pub open spec fn parse_post(s: Seq<char>, r: Result<ServerData, Error>) -> bool {
    match json_of(s) {
        None => r matches Err(e) && e is DataParseError,
        Some(t) => match t {
            JTree::Arr(elems) => r matches Ok(d) && d@.dom() == parsed_addrs(elems) && (forall|
                a: ServerAddr,
            |
                #[trigger] d@.dom().contains(a) ==> d@[a].addr == a && bare_record(d@[a])),
            _ => r matches Err(e) && (e matches Error::DataParseError(m) && m@
                == "Not a valid array of servers"@),
        },
    }
}

/// Parses the probe tool's JSON output into a server set: one record per
/// server object with a parsable `address`, later objects overriding
/// earlier ones of the same address; an object without a parsable address
/// is skipped. The server-type token does not enter the parse.
pub fn parse(raw: &str, server_type: &str) -> (r: Result<ServerData, Error>)
    ensures
        parse_post(raw@, r),
{
    let doc = match parse_json(raw) {
        Ok(v) => v,
        Err(m) => {
            return Err(Error::DataParseError(m));
        },
    };
    let arr = match value_as_array(&doc) {
        Some(a) => a,
        None => {
            return Err(Error::DataParseError("Not a valid array of servers".to_owned()));
        },
    };
    let ghost elems = crate::json::jv_view(doc)->Arr_0;
    let mut d = ServerData::new();
    let mut i: usize = 0;
    while i < arr.len()
        invariant
            0 <= i <= arr@.len(),
            elems.len() == arr@.len(),
            forall|j: int| 0 <= j < arr@.len() ==> crate::json::jv_view(#[trigger] arr@[j])
                == elems[j],
            d@.dom() == parsed_addrs(elems.take(i as int)),
            forall|a: ServerAddr|
                #[trigger] d@.dom().contains(a) ==> d@[a].addr == a && bare_record(d@[a]),
        decreases arr@.len() - i,
    {
        let mut found: Option<ServerAddr> = None;
        match value_get(&arr[i], "address") {
            Some(av) => {
                match value_as_str(av) {
                    Some(s) => {
                        found = parse_server_addr(s);
                    },
                    None => {},
                }
            },
            None => {},
        }
        proof {
            assert(found == addr_of_elem(elems[i as int]));
            assert(elems.take(i + 1).drop_last() =~= elems.take(i as int));
            assert(elems.take(i + 1).last() == elems[i as int]);
        }
        match found {
            Some(a) => {
                d.insert(ServerEntry::new(a));
                proof {
                    assert(d@.dom() =~= parsed_addrs(elems.take(i + 1)));
                }
            },
            None => {
                proof {
                    assert(d@.dom() =~= parsed_addrs(elems.take(i + 1)));
                }
            },
        }
        i += 1;
    }
    proof {
        assert(elems.take(elems.len() as int) =~= elems);
    }
    Ok(d)
}

/// Relies on `String::from_utf8`: succeeds exactly on valid UTF-8 and
/// decodes the bytes to their characters.
#[verifier::external_body]
fn bytes_to_string(b: Vec<u8>) -> (r: Option<String>)
    ensures
        r is Some <==> valid_utf8(b@),
        r matches Some(s) ==> s@ == decode_utf8(b@),
{
    String::from_utf8(b).ok()
}

impl Backend {
    /// The invocation that queries the given settings: the configured
    /// tool, with the fixed flag set, the typed master token carrying the
    /// rule filter, and the space-joined master URIs, all as one argument
    /// string.
    pub fn invocation(settings: &QuerySettings) -> (r: QStatInvocation)
        ensures
            r.program@ == settings.qstat_path@,
            r.argument@ == joined_spaced(qstat_cmd_views(*settings)),
    {
        let mut rules: Vec<(String, String)> = Vec::new();
        match &settings.qstat_game_type {
            Some(g) => {
                rules.push(("qstat_game_type".to_owned(), g.clone()));
            },
            None => {},
        }
        proof {
            assert(rules@.map_values(|p: (String, String)| (p.0@, p.1@)) =~= game_rules(
                *settings,
            ));
        }
        let params = make_qstat_cmd_params(
            settings.master_type.as_str(),
            &rules,
            &settings.master_server_uri,
        );
        let argument = join_spaced(&params);
        proof {
            assert(params@.map_values(|s: String| s@) =~= qstat_cmd_views(*settings));
        }
        QStatInvocation { program: settings.qstat_path.clone(), argument }
    }

    /// Turns what the probe process reported into the query's result: an
    /// `IOError` for an abnormal exit — naming the exit code, or the
    /// signal death — and otherwise the parse of its output, which must
    /// be UTF-8 JSON.
    pub fn interpret_output(output: ProbeOutput, server_type: &str) -> (r: Result<
        ServerData,
        Error,
    >)
        ensures
            !output.success ==> (r matches Err(e) && e matches Error::IOError(m) && m@
                == exit_message(output.exit_code)),
            output.success && !valid_utf8(output.stdout@) ==> (r matches Err(e) && (e matches Error::DataParseError(
                m,
            ) && m@ == "QStat output is not valid UTF-8"@)),
            output.success && valid_utf8(output.stdout@) ==> parse_post(
                decode_utf8(output.stdout@),
                r,
            ),
    {
        if !output.success {
            let mut m = String::new();
            match output.exit_code {
                Some(c) => {
                    m.append("QStat exited with status: ");
                    let num = i64_to_string(c);
                    m.append(num.as_str());
                },
                None => {
                    m.append("QStat killed by a signal");
                },
            }
            proof {
                assert(m@ =~= exit_message(output.exit_code));
            }
            return Err(Error::IOError(m));
        }
        let text = match bytes_to_string(output.stdout) {
            Some(t) => t,
            None => {
                return Err(Error::DataParseError("QStat output is not valid UTF-8".to_owned()));
            },
        };
        parse(text.as_str(), server_type)
    }

    /// A placeholder kept on the backend's surface; the probe pipeline
    /// stands in `invocation` and `interpret_output`.
    pub fn get_qstat_output(&self) {
    }
}

} // verus!
