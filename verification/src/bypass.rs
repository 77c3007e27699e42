//! The commands behind the DNS and GoodbyeDPI helpers: their arguments,
//! where the helper program and the blacklist are looked for, and what a
//! finished command means.
use vstd::prelude::*;
use crate::text::{lossy_text, same_text, utf8_lossy};

verus! {

/// The texts of a list of strings.
pub open spec fn texts(v: Seq<String>) -> Seq<Seq<char>> {
    v.map_values(|s: String| s@)
}

fn owned(s: &str) -> (r: String)
    ensures
        r@ == s@,
{
    String::from_str(s)
}

fn push_owned(v: &mut Vec<String>, s: &str)
    ensures
        texts(final(v)@) == texts(old(v)@).push(s@),
{
    let ghost before = v@;
    v.push(owned(s));
    assert(texts(v@) =~= texts(before).push(s@));
}

/// The `netsh` arguments that make `primary` the adapter's static DNS server.
pub open spec fn set_primary_dns_args_text(adapter: Seq<char>, primary: Seq<char>) -> Seq<Seq<char>> {
    seq!["interface"@, "ipv4"@, "set"@, "dnsservers"@, adapter, "static"@, primary, "primary"@, "validate=no"@]
}

/// The `netsh` arguments that make `primary` the adapter's static DNS server.
pub fn set_primary_dns_args(adapter: &str, primary: &str) -> (v: Vec<String>)
    ensures
        texts(v@) == set_primary_dns_args_text(adapter@, primary@),
{
    let mut v: Vec<String> = Vec::new();
    push_owned(&mut v, "interface");
    push_owned(&mut v, "ipv4");
    push_owned(&mut v, "set");
    push_owned(&mut v, "dnsservers");
    push_owned(&mut v, adapter);
    push_owned(&mut v, "static");
    push_owned(&mut v, primary);
    push_owned(&mut v, "primary");
    push_owned(&mut v, "validate=no");
    assert(texts(v@) =~= set_primary_dns_args_text(adapter@, primary@));
    v
}

/// The `netsh` arguments that add `secondary` as the adapter's second DNS server.
pub open spec fn add_secondary_dns_args_text(adapter: Seq<char>, secondary: Seq<char>) -> Seq<Seq<char>> {
    seq!["interface"@, "ipv4"@, "add"@, "dnsservers"@, adapter, secondary, "index=2"@, "validate=no"@]
}

/// The `netsh` arguments that add `secondary` as the adapter's second DNS server.
pub fn add_secondary_dns_args(adapter: &str, secondary: &str) -> (v: Vec<String>)
    ensures
        texts(v@) == add_secondary_dns_args_text(adapter@, secondary@),
{
    let mut v: Vec<String> = Vec::new();
    push_owned(&mut v, "interface");
    push_owned(&mut v, "ipv4");
    push_owned(&mut v, "add");
    push_owned(&mut v, "dnsservers");
    push_owned(&mut v, adapter);
    push_owned(&mut v, secondary);
    push_owned(&mut v, "index=2");
    push_owned(&mut v, "validate=no");
    assert(texts(v@) =~= add_secondary_dns_args_text(adapter@, secondary@));
    v
}

/// The `netsh` arguments that give the adapter its DNS servers by DHCP again.
pub open spec fn reset_dns_args_text(adapter: Seq<char>) -> Seq<Seq<char>> {
    seq!["interface"@, "ipv4"@, "set"@, "dnsservers"@, adapter, "dhcp"@]
}

/// The `netsh` arguments that give the adapter its DNS servers by DHCP again.
pub fn reset_dns_args(adapter: &str) -> (v: Vec<String>)
    ensures
        texts(v@) == reset_dns_args_text(adapter@),
{
    let mut v: Vec<String> = Vec::new();
    push_owned(&mut v, "interface");
    push_owned(&mut v, "ipv4");
    push_owned(&mut v, "set");
    push_owned(&mut v, "dnsservers");
    push_owned(&mut v, adapter);
    push_owned(&mut v, "dhcp");
    assert(texts(v@) =~= reset_dns_args_text(adapter@));
    v
}

/// The result of a finished `netsh` command: nothing when it succeeded, else
/// `prefix` followed by what it wrote to stderr.
pub open spec fn command_result(ok: bool, prefix: Seq<char>, stderr: Seq<u8>) -> Result<(), Seq<char>> {
    if ok { Ok(()) } else { Err(prefix + lossy_text(stderr)) }
}

/// The DNS commands: `netsh interface ipv4 set dnsservers ADAPTER static
/// PRIMARY primary validate=no` makes the primary server the only one,
/// `netsh interface ipv4 add dnsservers ADAPTER SECONDARY index=2
/// validate=no` puts the secondary one second, and `netsh interface ipv4
/// set dnsservers ADAPTER dhcp` gives the adapter its servers by DHCP again.
pub proof fn law_dns_commands(adapter: Seq<char>, primary: Seq<char>, secondary: Seq<char>)
    ensures
        set_primary_dns_args_text(adapter, primary) == seq![
            "interface"@,
            "ipv4"@,
            "set"@,
            "dnsservers"@,
            adapter,
            "static"@,
            primary,
            "primary"@,
            "validate=no"@,
        ],
        add_secondary_dns_args_text(adapter, secondary) == seq![
            "interface"@,
            "ipv4"@,
            "add"@,
            "dnsservers"@,
            adapter,
            secondary,
            "index=2"@,
            "validate=no"@,
        ],
        reset_dns_args_text(adapter) == seq!["interface"@, "ipv4"@, "set"@, "dnsservers"@, adapter, "dhcp"@],
{
}

/// A command that succeeded is fine whatever it printed; one that failed
/// is reported with the prefix followed by its stderr.
pub proof fn law_command_result(ok: bool, prefix: Seq<char>, stderr: Seq<u8>)
    ensures
        ok ==> command_result(ok, prefix, stderr) == Ok::<(), Seq<char>>(()),
        !ok ==> command_result(ok, prefix, stderr) == Err::<(), Seq<char>>(prefix + lossy_text(stderr)),
{
}

/// The result of a finished command, given the text of its stderr: nothing
/// when it succeeded, else `prefix` followed by that text.
pub fn outcome_with_text(ok: bool, prefix: &str, stderr: &str) -> (r: Result<(), String>)
    ensures
        match r {
            Ok(()) => ok,
            Err(m) => !ok && m@ == prefix@ + stderr@,
        },
{
    if ok {
        Ok(())
    } else {
        let mut m = String::from_str(prefix);
        m.append(stderr);
        Err(m)
    }
}

fn command_outcome(ok: bool, prefix: &str, stderr: &[u8]) -> (r: Result<(), String>)
    ensures
        match r {
            Ok(()) => command_result(ok, prefix@, stderr@) is Ok,
            Err(m) => command_result(ok, prefix@, stderr@) == Err::<(), Seq<char>>(m@),
        },
{
    let e = utf8_lossy(stderr);
    outcome_with_text(ok, prefix, e.as_str())
}

/// What setting the DNS servers comes to, once the command that sets the
/// primary one has finished: a failure of the secondary one does not count.
pub fn set_dns_outcome(primary_ok: bool, stderr: &[u8]) -> (r: Result<(), String>)
    ensures
        match r {
            Ok(()) => primary_ok,
            Err(m) => !primary_ok && m@ == "Failed to set primary DNS: "@ + lossy_text(stderr@),
        },
{
    command_outcome(primary_ok, "Failed to set primary DNS: ", stderr)
}

/// What resetting the DNS servers comes to, once the command has finished.
pub fn reset_dns_outcome(ok: bool, stderr: &[u8]) -> (r: Result<(), String>)
    ensures
        match r {
            Ok(()) => ok,
            Err(m) => !ok && m@ == "Failed to reset DNS: "@ + lossy_text(stderr@),
        },
{
    command_outcome(ok, "Failed to reset DNS: ", stderr)
}

/// Where a searched path starts: the directory of the running program, or
/// the current directory.
#[derive(Debug, Clone, Copy, PartialEq, Eq, Structural)]
pub enum Base {
    ExeDir,
    WorkDir,
}

/// A path to look at: a base, then the components joined onto it.
pub struct Candidate {
    pub base: Base,
    pub parts: Vec<String>,
}

/// The view of a candidate path.
pub open spec fn candidate_view(c: Candidate) -> (Base, Seq<Seq<char>>) {
    (c.base, texts(c.parts@))
}

/// The views of a list of candidate paths.
pub open spec fn candidate_views(v: Seq<Candidate>) -> Seq<(Base, Seq<Seq<char>>)> {
    v.map_values(|c: Candidate| candidate_view(c))
}

/// The directories searched for GoodbyeDPI, in order.
pub open spec fn goodbyedpi_dirs() -> Seq<(Base, Seq<Seq<char>>)> {
    seq![
        (Base::ExeDir, seq!["tools"@]),
        (Base::ExeDir, seq!["tools"@, "goodbyedpi"@]),
        (Base::ExeDir, Seq::<Seq<char>>::empty()),
        (Base::WorkDir, seq!["tools"@]),
        (Base::WorkDir, seq!["tools"@, "goodbyedpi"@]),
        (Base::WorkDir, seq!["."@]),
    ]
}

/// The places where `goodbyedpi.exe` is looked for, in order: in each
/// directory, under `x86_64`, then under `x86`, then directly.
pub open spec fn goodbyedpi_candidates_view() -> Seq<(Base, Seq<Seq<char>>)> {
    Seq::new(
        18,
        |i: int|
            {
                let d = goodbyedpi_dirs()[i / 3];
                let sub = i % 3;
                (
                    d.0,
                    if sub == 0 {
                        d.1 + seq!["x86_64"@, "goodbyedpi.exe"@]
                    } else if sub == 1 {
                        d.1 + seq!["x86"@, "goodbyedpi.exe"@]
                    } else {
                        d.1 + seq!["goodbyedpi.exe"@]
                    },
                )
            },
    )
}

fn dir_parts(k: usize) -> (r: (Base, Vec<String>))
    requires
        k < 6,
    ensures
        (r.0, texts(r.1@)) == goodbyedpi_dirs()[k as int],
{
    let mut v: Vec<String> = Vec::new();
    let base = if k < 3 { Base::ExeDir } else { Base::WorkDir };
    if k == 0 || k == 3 {
        push_owned(&mut v, "tools");
    } else if k == 1 || k == 4 {
        push_owned(&mut v, "tools");
        push_owned(&mut v, "goodbyedpi");
    } else if k == 5 {
        push_owned(&mut v, ".");
    }
    assert(texts(v@) =~= goodbyedpi_dirs()[k as int].1);
    (base, v)
}

/// The places where `goodbyedpi.exe` is looked for, in order.
pub fn goodbyedpi_candidates() -> (v: Vec<Candidate>)
    ensures
        candidate_views(v@) == goodbyedpi_candidates_view(),
{
    let mut v: Vec<Candidate> = Vec::new();
    let mut i: usize = 0;
    while i < 18
        invariant
            i <= 18,
            candidate_views(v@) == goodbyedpi_candidates_view().take(i as int),
        decreases 18 - i,
    {
        let (base, mut parts) = dir_parts(i / 3);
        let ghost dir = texts(parts@);
        if i % 3 == 0 {
            push_owned(&mut parts, "x86_64");
        } else if i % 3 == 1 {
            push_owned(&mut parts, "x86");
        }
        push_owned(&mut parts, "goodbyedpi.exe");
        proof {
            let want = goodbyedpi_candidates_view()[i as int];
            if i % 3 == 0 {
                assert(texts(parts@) =~= dir + seq!["x86_64"@, "goodbyedpi.exe"@]);
            } else if i % 3 == 1 {
                assert(texts(parts@) =~= dir + seq!["x86"@, "goodbyedpi.exe"@]);
            } else {
                assert(texts(parts@) =~= dir + seq!["goodbyedpi.exe"@]);
            }
            assert(candidate_view(Candidate { base, parts }) == want);
        }
        let ghost before = v@;
        let c = Candidate { base, parts };
        let ghost cv = candidate_view(c);
        v.push(c);
        assert(candidate_views(v@) =~= candidate_views(before).push(cv));
        i = i + 1;
        assert(candidate_views(v@) =~= goodbyedpi_candidates_view().take(i as int));
    }
    v
}

/// The places where the Telegram blacklist is looked for, in order.
pub open spec fn blacklist_candidates_view() -> Seq<(Base, Seq<Seq<char>>)> {
    seq![
        (Base::WorkDir, seq!["tg_blacklist.txt"@]),
        (Base::WorkDir, seq!["tools"@, "tg_blacklist.txt"@]),
        (Base::ExeDir, seq!["tg_blacklist.txt"@]),
    ]
}

/// The places where the Telegram blacklist is looked for, in order.
pub fn blacklist_candidates() -> (v: Vec<Candidate>)
    ensures
        candidate_views(v@) == blacklist_candidates_view(),
{
    let mut p0: Vec<String> = Vec::new();
    push_owned(&mut p0, "tg_blacklist.txt");
    let mut p1: Vec<String> = Vec::new();
    push_owned(&mut p1, "tools");
    push_owned(&mut p1, "tg_blacklist.txt");
    let mut p2: Vec<String> = Vec::new();
    push_owned(&mut p2, "tg_blacklist.txt");
    let ghost t0 = texts(p0@);
    let ghost t1 = texts(p1@);
    let ghost t2 = texts(p2@);
    let mut v: Vec<Candidate> = Vec::new();
    v.push(Candidate { base: Base::WorkDir, parts: p0 });
    v.push(Candidate { base: Base::WorkDir, parts: p1 });
    v.push(Candidate { base: Base::ExeDir, parts: p2 });
    assert(t0 =~= seq!["tg_blacklist.txt"@]);
    assert(t1 =~= seq!["tools"@, "tg_blacklist.txt"@]);
    assert(t2 =~= seq!["tg_blacklist.txt"@]);
    assert(candidate_views(v@) =~= blacklist_candidates_view());
    v
}

/// The first place that exists, given which do.
pub fn first_present(exists: &[bool]) -> (r: Option<usize>)
    ensures
        match r {
            Some(i) => i < exists@.len() && exists@[i as int] && forall|j: int|
                0 <= j < i ==> !exists@[j],
            None => forall|j: int| 0 <= j < exists@.len() ==> !exists@[j],
        },
{
    let mut i: usize = 0;
    while i < exists.len()
        invariant
            i <= exists@.len(),
            forall|j: int| 0 <= j < i ==> !exists@[j],
        decreases exists@.len() - i,
    {
        if exists[i] {
            return Some(i);
        }
        i = i + 1;
    }
    None
}

/// What a search for a file by name does with one directory entry.
#[derive(Debug, Clone, Copy, PartialEq, Eq, Structural)]
pub enum EntryStep {
    /// The entry is a file of the wanted name: it is a result.
    Keep,
    /// The entry is a directory: the search goes on inside it.
    Descend,
    /// Anything else is passed over.
    Skip,
}

/// The step a search for `wanted` takes on an entry, given whether the entry
/// is a file, whether it is a directory, and its name (`None` where it has
/// none that is text): a file of the wanted name is kept, any other
/// directory is searched, the rest is skipped.
pub fn entry_step(is_file: bool, is_dir: bool, name: Option<&str>, wanted: &str) -> (step: EntryStep)
    ensures
        step == (if is_file && (name matches Some(n) && n@ == wanted@) {
            EntryStep::Keep
        } else if is_dir {
            EntryStep::Descend
        } else {
            EntryStep::Skip
        }),
{
    let named = match name {
        Some(n) => same_text(n, wanted),
        None => false,
    };
    if is_file && named {
        EntryStep::Keep
    } else if is_dir {
        EntryStep::Descend
    } else {
        EntryStep::Skip
    }
}

/// The arguments GoodbyeDPI is started with: the given ones, then
/// `--blacklist FILE` when a blacklist was found.
pub fn goodbyedpi_args(args: &[&str], blacklist: Option<&str>) -> (v: Vec<String>)
    ensures
        texts(v@) == args@.map_values(|a: &str| a@) + match blacklist {
            Some(b) => seq!["--blacklist"@, b@],
            None => Seq::<Seq<char>>::empty(),
        },
{
    let mut v: Vec<String> = Vec::new();
    let mut i: usize = 0;
    while i < args.len()
        invariant
            i <= args@.len(),
            texts(v@) == args@.take(i as int).map_values(|a: &str| a@),
        decreases args@.len() - i,
    {
        push_owned(&mut v, args[i]);
        i = i + 1;
        assert(texts(v@) =~= args@.take(i as int).map_values(|a: &str| a@));
    }
    assert(args@.take(args@.len() as int) =~= args@);
    let ghost plain = texts(v@);
    match blacklist {
        Some(b) => {
            push_owned(&mut v, "--blacklist");
            push_owned(&mut v, b);
            assert(texts(v@) =~= plain + seq!["--blacklist"@, b@]);
        },
        None => {
            assert(texts(v@) =~= plain + Seq::<Seq<char>>::empty());
        },
    }
    v
}

/// Where GoodbyeDPI is downloaded from.
pub open spec fn goodbyedpi_url_text() -> Seq<char> {
    "https://github.com/ValdikSS/GoodbyeDPI/releases/download/0.2.3rc3/goodbyedpi-0.2.3rc3-2.zip"@
}

/// Where GoodbyeDPI is downloaded from.
pub fn goodbyedpi_url() -> (u: String)
    ensures
        u@ == goodbyedpi_url_text(),
{
    owned("https://github.com/ValdikSS/GoodbyeDPI/releases/download/0.2.3rc3/goodbyedpi-0.2.3rc3-2.zip")
}

/// The PowerShell script that downloads `url` to `zip`.
pub open spec fn download_script_text(url: Seq<char>, zip: Seq<char>) -> Seq<char> {
    "[Net.ServicePointManager]::SecurityProtocol = [Net.SecurityProtocolType]::Tls12; Invoke-WebRequest -Uri '"@
        + url + "' -OutFile '"@ + zip + "' -UseBasicParsing"@
}

/// The PowerShell script that downloads `url` to `zip`.
pub fn download_script(url: &str, zip: &str) -> (s: String)
    ensures
        s@ == download_script_text(url@, zip@),
{
    let mut s = owned(
        "[Net.ServicePointManager]::SecurityProtocol = [Net.SecurityProtocolType]::Tls12; Invoke-WebRequest -Uri '",
    );
    s.append(url);
    s.append("' -OutFile '");
    s.append(zip);
    s.append("' -UseBasicParsing");
    s
}

/// The PowerShell script that unpacks `zip` into `dir`.
pub open spec fn extract_script_text(zip: Seq<char>, dir: Seq<char>) -> Seq<char> {
    "Expand-Archive -Path '"@ + zip + "' -DestinationPath '"@ + dir + "' -Force"@
}

/// The PowerShell script that unpacks `zip` into `dir`.
pub fn extract_script(zip: &str, dir: &str) -> (s: String)
    ensures
        s@ == extract_script_text(zip@, dir@),
{
    let mut s = owned("Expand-Archive -Path '");
    s.append(zip);
    s.append("' -DestinationPath '");
    s.append(dir);
    s.append("' -Force");
    s
}

/// What a finished download or unpacking step comes to: nothing when it
/// succeeded, else the step's failure message with its stderr.
pub fn step_outcome(ok: bool, failure: &str, stderr: &[u8]) -> (r: Result<(), String>)
    ensures
        match r {
            Ok(()) => ok,
            Err(m) => !ok && m@ == failure@ + lossy_text(stderr@),
        },
{
    command_outcome(ok, failure, stderr)
}

} // verus!
