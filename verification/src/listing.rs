//! The list of audio hosts, their input devices and what each supports, as it is
//! printed for the user.
use vstd::prelude::*;

use crate::decimal::{decimal, lemma_decimal_reads, to_decimal};
use crate::plain::{number, numeric};
use crate::text::texts;

verus! {

/// One range of streams that a device supports.
pub struct ConfigInfo {
    /// The sample format, by name.
    pub format: String,
    pub channels: u16,
    pub min_rate: u32,
    pub max_rate: u32,
    /// The buffer size, as text.
    pub buffer: String,
}

/// An input device.
pub struct DeviceInfo {
    pub label: String,
    /// Nothing if the device does not say.
    pub configs: Vec<ConfigInfo>,
}

/// What an audio host that was opened offers.
pub struct HostDevices {
    /// The label of the default input, if there is one.
    pub default_input: Option<String>,
    /// The input devices, or why they could not be listed.
    pub devices: Result<Vec<DeviceInfo>, String>,
}

/// An audio host.
pub struct HostInfo {
    pub name: String,
    /// What it offers, or why it could not be opened.
    pub opened: Result<HostDevices, String>,
}

/// The line for a range.
pub open spec fn config_line(c: ConfigInfo) -> Seq<char> {
    "    "@ + c.format@ + " ch="@ + decimal(c.channels as nat) + " rate="@ + decimal(
        c.min_rate as nat,
    ) + ".."@ + decimal(c.max_rate as nat) + " buffer="@ + c.buffer@
}

/// The lines for a device.
pub open spec fn device_lines(d: DeviceInfo) -> Seq<Seq<char>> {
    seq!["  device: "@ + d.label@] + Seq::new(d.configs@.len(), |i: int| config_line(d.configs@[i]))
}

/// The lines for several devices.
pub open spec fn devices_lines(devices: Seq<DeviceInfo>) -> Seq<Seq<char>>
    decreases devices.len(),
{
    if devices.len() == 0 {
        Seq::empty()
    } else {
        devices_lines(devices.drop_last()) + device_lines(devices.last())
    }
}

/// The line for the default input.
pub open spec fn default_lines(label: Option<String>) -> Seq<Seq<char>> {
    match label {
        Some(l) => seq!["  default input: "@ + l@],
        None => Seq::empty(),
    }
}

/// The lines for a host.
pub open spec fn host_lines(h: HostInfo) -> Seq<Seq<char>> {
    seq!["host: "@ + h.name@] + match h.opened {
        Err(e) => seq!["  (failed to open host: "@ + e@ + ")"@],
        Ok(o) => default_lines(o.default_input) + match o.devices {
            Ok(d) => devices_lines(d@),
            Err(e) => seq!["  (error listing input devices: "@ + e@ + ")"@],
        },
    }
}

/// The lines for several hosts.
pub open spec fn hosts_lines(hosts: Seq<HostInfo>) -> Seq<Seq<char>>
    decreases hosts.len(),
{
    if hosts.len() == 0 {
        Seq::empty()
    } else {
        hosts_lines(hosts.drop_last()) + host_lines(hosts.last())
    }
}

fn put(out: &mut Vec<String>, line: String)
    ensures
        texts(final(out)@) == texts(old(out)@).push(line@),
{
    let ghost before = out@;
    let ghost t = line@;
    out.push(line);
    assert(texts(out@) =~= texts(before).push(t));
}

fn config_text(c: &ConfigInfo) -> (r: String)
    ensures
        r@ == config_line(*c),
{
    let mut r: String = "    ".to_owned();
    r.append(c.format.as_str());
    r.append(" ch=");
    r.append(to_decimal(c.channels as u64).as_str());
    r.append(" rate=");
    r.append(to_decimal(c.min_rate as u64).as_str());
    r.append("..");
    r.append(to_decimal(c.max_rate as u64).as_str());
    r.append(" buffer=");
    r.append(c.buffer.as_str());
    r
}

fn list_device(out: &mut Vec<String>, d: &DeviceInfo)
    ensures
        texts(final(out)@) == texts(old(out)@) + device_lines(*d),
{
    let ghost before = texts(out@);
    let mut line: String = "  device: ".to_owned();
    line.append(d.label.as_str());
    put(out, line);
    let n: usize = d.configs.len();
    assert(texts(out@) =~= before + (seq!["  device: "@ + d.label@] + Seq::new(
        0,
        |j: int| config_line(d.configs@[j]),
    )));
    for i in 0..n
        invariant
            n == d.configs@.len(),
            texts(out@) == before + (seq!["  device: "@ + d.label@] + Seq::new(
                i as nat,
                |j: int| config_line(d.configs@[j]),
            )),
    {
        let ghost here = texts(out@);
        put(out, config_text(&d.configs[i]));
        assert(texts(out@) =~= before + (seq!["  device: "@ + d.label@] + Seq::new(
            (i + 1) as nat,
            |j: int| config_line(d.configs@[j]),
        )));
    }
}

fn list_host(out: &mut Vec<String>, h: &HostInfo)
    ensures
        texts(final(out)@) == texts(old(out)@) + host_lines(*h),
{
    let ghost before = texts(out@);
    let mut line: String = "host: ".to_owned();
    line.append(h.name.as_str());
    put(out, line);
    match &h.opened {
        Err(e) => {
            let mut line: String = "  (failed to open host: ".to_owned();
            line.append(e.as_str());
            line.append(")");
            put(out, line);
            assert(texts(out@) =~= before + host_lines(*h));
        },
        Ok(o) => {
            match &o.default_input {
                Some(l) => {
                    let mut line: String = "  default input: ".to_owned();
                    line.append(l.as_str());
                    put(out, line);
                },
                None => {},
            }
            let ghost head = seq!["host: "@ + h.name@] + default_lines(o.default_input);
            assert(texts(out@) =~= before + head);
            match &o.devices {
                Err(e) => {
                    let mut line: String = "  (error listing input devices: ".to_owned();
                    line.append(e.as_str());
                    line.append(")");
                    put(out, line);
                    assert(texts(out@) =~= before + host_lines(*h));
                },
                Ok(devices) => {
                    list_all_devices(out, devices);
                    assert(texts(out@) =~= before + host_lines(*h));
                },
            }
        },
    }
}

fn list_all_devices(out: &mut Vec<String>, devices: &Vec<DeviceInfo>)
    ensures
        texts(final(out)@) == texts(old(out)@) + devices_lines(devices@),
{
    let ghost before = texts(out@);
    let n: usize = devices.len();
    assert(texts(out@) =~= before + devices_lines(devices@.take(0)));
    for i in 0..n
        invariant
            n == devices@.len(),
            texts(out@) == before + devices_lines(devices@.take(i as int)),
    {
        list_device(out, &devices[i]);
        assert(devices@.take(i + 1).drop_last() =~= devices@.take(i as int));
        assert(texts(out@) =~= before + devices_lines(devices@.take(i + 1)));
    }
    assert(devices@.take(n as int) =~= devices@);
}

/// The lines that list the hosts with their devices.
pub fn list_devices(hosts: &[HostInfo]) -> (r: Vec<String>)
    ensures
        texts(r@) == hosts_lines(hosts@),
{
    let mut out: Vec<String> = Vec::new();
    let n: usize = hosts.len();
    assert(texts(out@) =~= hosts_lines(hosts@.take(0)));
    for i in 0..n
        invariant
            n == hosts@.len(),
            texts(out@) == hosts_lines(hosts@.take(i as int)),
    {
        list_host(&mut out, &hosts[i]);
        assert(hosts@.take(i + 1).drop_last() =~= hosts@.take(i as int));
    }
    assert(hosts@.take(n as int) =~= hosts@);
    out
}

proof fn lemma_hosts_add(a: Seq<HostInfo>, b: Seq<HostInfo>)
    ensures
        hosts_lines(a + b) == hosts_lines(a) + hosts_lines(b),
    decreases b.len(),
{
    if b.len() > 0 {
        lemma_hosts_add(a, b.drop_last());
        assert((a + b).drop_last() =~= a + b.drop_last());
        assert((a + b).last() == b.last());
        assert(hosts_lines(a + b) =~= hosts_lines(a) + hosts_lines(b));
    } else {
        assert(a + b =~= a);
        assert(hosts_lines(a) + hosts_lines(b) =~= hosts_lines(a));
    }
}

/// The hosts are listed one behind the other, each by itself.
pub proof fn law_hosts_are_listed_in_order(
    front: &[HostInfo],
    back: &[HostInfo],
    whole: &[HostInfo],
    a: Vec<String>,
    b: Vec<String>,
    r: Vec<String>,
)
    requires
        call_ensures(list_devices, (front,), a),
        call_ensures(list_devices, (back,), b),
        call_ensures(list_devices, (whole,), r),
        whole@ == front@ + back@,
    ensures
        r@.len() == a@.len() + b@.len(),
        forall|i: int| 0 <= i < a@.len() ==> (#[trigger] r@[i])@ == a@[i]@,
        forall|i: int| 0 <= i < b@.len() ==> r@[a@.len() + i]@ == (#[trigger] b@[i])@,
{
    lemma_hosts_add(front@, back@);
    let va = texts(a@);
    let vb = texts(b@);
    let vr = texts(r@);
    assert(va.len() == a@.len() && vb.len() == b@.len() && vr.len() == r@.len());
    assert forall|i: int| 0 <= i < a@.len() implies (#[trigger] r@[i])@ == a@[i]@ by {
        assert(vr[i] == r@[i]@ && va[i] == a@[i]@);
    }
    assert forall|i: int| 0 <= i < b@.len() implies r@[a@.len() + i]@ == (#[trigger] b@[i])@ by {
        assert(vr[a@.len() + i] == r@[a@.len() + i]@ && vb[i] == b@[i]@);
    }
}

/// The number of lines before those of device `i`: each device takes one for itself and
/// one for each of its ranges.
pub open spec fn lines_before(devices: Seq<DeviceInfo>, i: int) -> int
    decreases i,
{
    if i <= 0 {
        0
    } else {
        lines_before(devices, i - 1) + 1 + devices[i - 1].configs@.len()
    }
}

/// The line tells the format, the channels, the rates and the buffer of a range.
pub open spec fn tells_range(line: Seq<char>, c: ConfigInfo) -> bool {
    exists|channels: Seq<char>, low: Seq<char>, high: Seq<char>|
        {
            &&& numeric(channels) && number(channels) == c.channels
            &&& numeric(low) && number(low) == c.min_rate
            &&& numeric(high) && number(high) == c.max_rate
            &&& line == #[trigger] range_line(c.format@, channels, low, high, c.buffer@)
        }
}

/// The line of a range, from its parts.
pub open spec fn range_line(
    format: Seq<char>,
    channels: Seq<char>,
    low: Seq<char>,
    high: Seq<char>,
    buffer: Seq<char>,
) -> Seq<char> {
    "    "@ + format + " ch="@ + channels + " rate="@ + low + ".."@ + high + " buffer="@ + buffer
}

proof fn lemma_tells_range(c: ConfigInfo)
    ensures
        tells_range(config_line(c), c),
{
    lemma_decimal_reads(c.channels as nat);
    lemma_decimal_reads(c.min_rate as nat);
    lemma_decimal_reads(c.max_rate as nat);
    assert(config_line(c) == range_line(
        c.format@,
        decimal(c.channels as nat),
        decimal(c.min_rate as nat),
        decimal(c.max_rate as nat),
        c.buffer@,
    ));
}

proof fn lemma_before_grows(devices: Seq<DeviceInfo>, i: int, n: int)
    requires
        0 <= i <= n,
    ensures
        0 <= lines_before(devices, i) <= lines_before(devices, n),
        i < n ==> lines_before(devices, i) + 1 + devices[i].configs@.len() <= lines_before(
            devices,
            n,
        ),
    decreases n,
{
    if i < n {
        lemma_before_grows(devices, i, n - 1);
    } else if n > 0 {
        lemma_before_grows(devices, n - 1, n - 1);
    }
}

proof fn lemma_device_lines(devices: Seq<DeviceInfo>, n: int)
    requires
        0 <= n <= devices.len(),
    ensures
        devices_lines(devices.take(n)).len() == lines_before(devices, n),
        forall|i: int|
            0 <= i < n ==> devices_lines(devices.take(n)).subrange(
                #[trigger] lines_before(devices, i),
                lines_before(devices, i) + 1 + devices[i].configs@.len(),
            ) == device_lines(devices[i]),
    decreases n,
{
    if n > 0 {
        let before = devices.take(n - 1);
        let here = devices.take(n);
        lemma_device_lines(devices, n - 1);
        assert(here.drop_last() =~= before);
        assert(here.last() == devices[n - 1]);
        let a = devices_lines(before);
        let b = device_lines(devices[n - 1]);
        assert(devices_lines(here) == a + b);
        assert forall|i: int| 0 <= i < n implies devices_lines(here).subrange(
            #[trigger] lines_before(devices, i),
            lines_before(devices, i) + 1 + devices[i].configs@.len(),
        ) == device_lines(devices[i]) by {
            lemma_before_grows(devices, i, n - 1);
            let k = lines_before(devices, i);
            let e = k + 1 + devices[i].configs@.len();
            if i < n - 1 {
                assert((a + b).subrange(k, e) =~= a.subrange(k, e));
            } else {
                assert((a + b).subrange(k, e) =~= b);
            }
        }
    } else {
        assert(devices.take(0) =~= Seq::empty());
    }
}

/// A host is listed by its name; then why it could not be opened, or its default input, if
/// there is one, and its devices, or why they could not be listed. Each device has a line
/// with its label and, behind it, one for each of its ranges, in order, and nothing else
/// is listed.
pub proof fn law_host_is_listed_with_its_devices(hosts: &[HostInfo], r: Vec<String>)
    requires
        call_ensures(list_devices, (hosts,), r),
        hosts@.len() == 1,
    ensures
        r@.len() > 0,
        r@[0]@ == "host: "@ + hosts@[0].name@,
        match hosts@[0].opened {
            Err(e) => r@.len() == 2 && r@[1]@ == "  (failed to open host: "@ + e@ + ")"@,
            Ok(o) => {
                let k: int = if o.default_input is Some {
                    2
                } else {
                    1
                };
                &&& o.default_input matches Some(l) ==> r@[1]@ == "  default input: "@ + l@
                &&& match o.devices {
                    Err(e) => r@.len() == k + 1 && r@[k]@ == "  (error listing input devices: "@
                        + e@ + ")"@,
                    Ok(d) => {
                        &&& r@.len() == k + lines_before(d@, d@.len() as int)
                        &&& forall|i: int|
                            0 <= i < d@.len() ==> r@[k + #[trigger] lines_before(d@, i)]@
                                == "  device: "@ + d@[i].label@
                        &&& forall|i: int, j: int|
                            0 <= i < d@.len() && 0 <= j < d@[i].configs@.len() ==> tells_range(
                                r@[k + #[trigger] lines_before(d@, i) + 1 + j]@,
                                #[trigger] d@[i].configs@[j],
                            )
                    },
                }
            },
        },
{
    let v = texts(r@);
    assert(v.len() == r@.len());
    assert(forall|i: int| 0 <= i < r@.len() ==> v[i] == (#[trigger] r@[i])@);
    let h = hosts@[0];
    assert(hosts@.drop_last() =~= Seq::empty());
    assert(hosts@.last() == h);
    assert(hosts_lines(hosts@.drop_last()) =~= Seq::empty());
    assert(hosts_lines(hosts@) == hosts_lines(hosts@.drop_last()) + host_lines(h));
    assert(v =~= host_lines(h));
    assert(v[0] == r@[0]@);
    match h.opened {
        Err(e) => {
            assert(v[1] == r@[1]@);
        },
        Ok(o) => {
            let k: int = if o.default_input is Some {
                2
            } else {
                1
            };
            if o.default_input is Some {
                assert(v[1] == r@[1]@);
            }
            match o.devices {
                Err(e) => {
                    assert(v[k] == r@[k]@);
                },
                Ok(d) => {
                    let n = d@.len() as int;
                    let all = devices_lines(d@);
                    lemma_device_lines(d@, n);
                    assert(d@.take(n) =~= d@);
                    assert(v =~= v.take(k) + all);
                    assert forall|i: int| 0 <= i < n implies r@[k + #[trigger] lines_before(
                        d@,
                        i,
                    )]@ == "  device: "@ + d@[i].label@ by {
                        lemma_before_grows(d@, i, n);
                        let at = lines_before(d@, i);
                        let e = at + 1 + d@[i].configs@.len();
                        assert(all.subrange(at, e)[0] == device_lines(d@[i])[0]);
                        assert(v[k + at] == all[at]);
                        assert(v[k + at] == r@[k + at]@);
                    }
                    assert forall|i: int, j: int|
                        0 <= i < n && 0 <= j < d@[i].configs@.len() implies tells_range(
                        r@[k + #[trigger] lines_before(d@, i) + 1 + j]@,
                        #[trigger] d@[i].configs@[j],
                    ) by {
                        lemma_before_grows(d@, i, n);
                        let at = lines_before(d@, i);
                        let e = at + 1 + d@[i].configs@.len();
                        assert(all.subrange(at, e)[1 + j] == device_lines(d@[i])[1 + j]);
                        assert(v[k + at + 1 + j] == all[at + 1 + j]);
                        assert(v[k + at + 1 + j] == r@[k + at + 1 + j]@);
                        lemma_tells_range(d@[i].configs@[j]);
                    }
                },
            }
        },
    }
}

} // verus!
