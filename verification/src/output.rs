//! The line-oriented output policy: what, if anything, is printed for a
//! resolved host.

use vstd::prelude::*;
use vstd::string::*;
use crate::names::views;
use crate::record::DomainData;

verus! {

/// An address wrapped in double quotes.
pub open spec fn quoted(a: Seq<char>) -> Seq<char> {
    seq!['"'] + a + seq!['"']
}

/// The quoted addresses joined with `", "`.
pub open spec fn addr_list_text(addrs: Seq<Seq<char>>) -> Seq<char>
    decreases addrs.len(),
{
    if addrs.len() == 0 {
        Seq::empty()
    } else if addrs.len() == 1 {
        quoted(addrs[0])
    } else {
        addr_list_text(addrs.drop_last()) + seq![',', ' '] + quoted(addrs.last())
    }
}

/// The address set as printed: quoted addresses, comma-separated, in braces.
pub open spec fn addr_set_text(addrs: Seq<Seq<char>>) -> Seq<char> {
    seq!['{'] + addr_list_text(addrs) + seq!['}']
}

/// The output line a host's record produces: nothing in quiet mode or for a
/// wildcard-suppressed host; `host;{"addr", ...}` when addresses are shown;
/// the bare host name otherwise.
pub open spec fn output_line(
    host: Seq<char>,
    addrs: Seq<Seq<char>>,
    is_wildcard: bool,
    show_ip: bool,
    quiet: bool,
) -> Option<Seq<char>> {
    if quiet || is_wildcard {
        None
    } else if show_ip {
        Some(host + seq![';'] + addr_set_text(addrs))
    } else {
        Some(host)
    }
}

/// The character sequence of an optional line.
pub open spec fn line_view(o: Option<String>) -> Option<Seq<char>> {
    match o {
        Some(s) => Some(s@),
        None => None,
    }
}

/// Renders the output line for one host's record, or nothing when the output
/// policy suppresses the host.
pub fn render_domain_data(host: &str, data: &DomainData, show_ip: bool, quiet: bool) -> (r: Option<
    String,
>)
    ensures
        line_view(r) == output_line(
            host@,
            views(data.ipv4_addresses@),
            data.is_wildcard,
            show_ip,
            quiet,
        ),
{
    if quiet || data.is_wildcard {
        return None;
    }
    if !show_ip {
        return Some(host.to_owned());
    }
    let addrs = &data.ipv4_addresses;
    let ghost avs = views(addrs@);
    let mut out = String::from_str(host);
    out.append(";");
    out.append("{");
    proof {
        reveal_strlit(";");
        reveal_strlit("{");
        assert(avs.subrange(0, 0) =~= Seq::<Seq<char>>::empty());
        assert(out@ =~= host@ + seq![';'] + seq!['{'] + addr_list_text(avs.subrange(0, 0)));
    }
    let mut i: usize = 0;
    while i < addrs.len()
        invariant
            i <= addrs.len(),
            avs == views(addrs@),
            avs.len() == addrs@.len(),
            out@ == host@ + seq![';'] + seq!['{'] + addr_list_text(avs.subrange(0, i as int)),
        decreases addrs.len() - i,
    {
        if i > 0 {
            out.append(", ");
            proof {
                reveal_strlit(", ");
            }
        }
        out.append("\"");
        out.append(addrs[i].as_str());
        out.append("\"");
        proof {
            reveal_strlit("\"");
            let pre = avs.subrange(0, i as int);
            let next = avs.subrange(0, i + 1);
            assert(next.drop_last() =~= pre);
            assert(next.last() == avs[i as int]);
            if i == 0 {
                assert(addr_list_text(next) == quoted(avs[0]));
                assert(out@ =~= host@ + seq![';'] + seq!['{'] + addr_list_text(next));
            } else {
                assert(addr_list_text(next) == addr_list_text(pre) + seq![',', ' '] + quoted(
                    avs[i as int],
                ));
                assert(out@ =~= host@ + seq![';'] + seq!['{'] + addr_list_text(next));
            }
        }
        i += 1;
    }
    out.append("}");
    proof {
        reveal_strlit("}");
        assert(avs.subrange(0, avs.len() as int) =~= avs);
        assert(out@ =~= host@ + seq![';'] + addr_set_text(avs));
    }
    Some(out)
}

} // verus!
