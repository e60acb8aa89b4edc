//! The tray menu: its entries for the providers, and what a click on one asks for.
use vstd::prelude::*;
use crate::providers::{ProviderConfig, views, Provider};
use crate::text::{append_str, chars_of, str_eq, str_starts_with, string_of, sub_chars};

verus! {

/// One entry of the tray menu.
#[derive(Debug)]
pub enum TrayEntry {
    /// A clickable line: its ID and its label.
    Item(String, String),
    Separator,
}

pub enum TrayEntryView {
    Item(Seq<char>, Seq<char>),
    Separator,
}

impl View for TrayEntry {
    type V = TrayEntryView;

    open spec fn view(&self) -> TrayEntryView {
        match self {
            TrayEntry::Item(id, label) => TrayEntryView::Item(id@, label@),
            TrayEntry::Separator => TrayEntryView::Separator,
        }
    }
}

pub open spec fn entry_views(s: Seq<TrayEntry>) -> Seq<TrayEntryView> {
    s.map_values(|e: TrayEntry| e@)
}

/// A provider's line: its ID after the provider prefix, labelled with a check mark for
/// the current provider and two spaces for any other.
pub open spec fn provider_entry(p: Provider, current: Seq<char>) -> TrayEntryView {
    TrayEntryView::Item(
        "tray:provider:"@ + p.id,
        if p.id == current {
            "✓ "@ + p.id
        } else {
            "  "@ + p.id
        },
    )
}

/// The tray menu: the current provider, a line per provider in order, then opening the
/// window, refreshing the list, and quitting.
pub open spec fn spec_tray_menu(current: Seq<char>, ps: Seq<Provider>) -> Seq<TrayEntryView> {
    seq![TrayEntryView::Item("tray:title"@, "当前 Provider："@ + current), TrayEntryView::Separator]
        + ps.map_values(|p: Provider| provider_entry(p, current)) + seq![
        TrayEntryView::Separator,
        TrayEntryView::Item("tray:open"@, "打开 Codex Tools"@),
        TrayEntryView::Item("tray:refresh"@, "刷新 Provider 列表"@),
        TrayEntryView::Separator,
        TrayEntryView::Item("tray:quit"@, "退出"@),
    ]
}

fn joined(a: &str, b: &str) -> (res: String)
    ensures
        res@ == a@ + b@,
{
    let mut out = chars_of(a);
    append_str(&mut out, b);
    string_of(out.as_slice())
}

fn push_entry(out: &mut Vec<TrayEntry>, e: TrayEntry)
    ensures
        entry_views(final(out)@) == entry_views(old(out)@).push(e@),
{
    let ghost ev = e@;
    out.push(e);
    assert(entry_views(out@) =~= entry_views(old(out)@).push(ev));
}

/// The tray menu for the current provider and the stored providers.
pub fn tray_menu(current: &str, providers: &Vec<ProviderConfig>) -> (res: Vec<TrayEntry>)
    ensures
        entry_views(res@) == spec_tray_menu(current@, views(providers@)),
{
    let ghost pv = views(providers@);
    let mut out: Vec<TrayEntry> = Vec::new();
    push_entry(&mut out, TrayEntry::Item("tray:title".to_string(), joined("当前 Provider：", current)));
    push_entry(&mut out, TrayEntry::Separator);
    let ghost head = entry_views(out@);
    let mut k: usize = 0;
    while k < providers.len()
        invariant
            k <= providers.len(),
            pv == views(providers@),
            entry_views(out@) == head + pv.take(k as int).map_values(
                |p: Provider| provider_entry(p, current@),
            ),
        decreases providers.len() - k,
    {
        let id = providers[k].id.as_str();
        let label = if str_eq(id, current) {
            joined("✓ ", id)
        } else {
            joined("  ", id)
        };
        push_entry(&mut out, TrayEntry::Item(joined("tray:provider:", id), label));
        assert(pv[k as int] == providers@[k as int]@);
        assert(pv.take(k + 1).map_values(|p: Provider| provider_entry(p, current@)) =~= pv.take(
            k as int,
        ).map_values(|p: Provider| provider_entry(p, current@)).push(
            provider_entry(pv[k as int], current@),
        ));
        k += 1;
    }
    assert(pv.take(k as int) =~= pv);
    push_entry(&mut out, TrayEntry::Separator);
    push_entry(&mut out, TrayEntry::Item("tray:open".to_string(), "打开 Codex Tools".to_string()));
    push_entry(
        &mut out,
        TrayEntry::Item("tray:refresh".to_string(), "刷新 Provider 列表".to_string()),
    );
    push_entry(&mut out, TrayEntry::Separator);
    push_entry(&mut out, TrayEntry::Item("tray:quit".to_string(), "退出".to_string()));
    assert(entry_views(out@) =~= spec_tray_menu(current@, pv));
    out
}

/// What a click on a tray entry asks for.
#[derive(Debug)]
pub enum TrayAction {
    /// Show the window and refresh it.
    Open,
    /// Rebuild the menu.
    Refresh,
    Quit,
    /// Switch to the provider, move the threads onto it, restart Codex.
    SwitchProvider(String),
    /// Nothing.
    Ignore,
}

pub enum TrayActionView {
    Open,
    Refresh,
    Quit,
    SwitchProvider(Seq<char>),
    Ignore,
}

impl View for TrayAction {
    type V = TrayActionView;

    open spec fn view(&self) -> TrayActionView {
        match self {
            TrayAction::Open => TrayActionView::Open,
            TrayAction::Refresh => TrayActionView::Refresh,
            TrayAction::Quit => TrayActionView::Quit,
            TrayAction::SwitchProvider(id) => TrayActionView::SwitchProvider(id@),
            TrayAction::Ignore => TrayActionView::Ignore,
        }
    }
}

/// What a click on the entry `id` asks for: the three fixed entries, a provider's line
/// (the provider being what follows the prefix), or nothing.
pub open spec fn spec_tray_action(id: Seq<char>) -> TrayActionView {
    if id == "tray:open"@ {
        TrayActionView::Open
    } else if id == "tray:refresh"@ {
        TrayActionView::Refresh
    } else if id == "tray:quit"@ {
        TrayActionView::Quit
    } else if crate::text::starts_with(id, "tray:provider:"@) {
        TrayActionView::SwitchProvider(id.skip(("tray:provider:"@).len() as int))
    } else {
        TrayActionView::Ignore
    }
}

/// What a click on the entry `id` asks for.
pub fn tray_action(id: &str) -> (res: TrayAction)
    ensures
        res@ == spec_tray_action(id@),
{
    if str_eq(id, "tray:open") {
        TrayAction::Open
    } else if str_eq(id, "tray:refresh") {
        TrayAction::Refresh
    } else if str_eq(id, "tray:quit") {
        TrayAction::Quit
    } else if str_starts_with(id, "tray:provider:") {
        let cs = chars_of(id);
        let prefix = chars_of("tray:provider:");
        let rest = sub_chars(cs.as_slice(), prefix.len(), cs.len());
        assert(rest@ =~= id@.skip(("tray:provider:"@).len() as int));
        TrayAction::SwitchProvider(string_of(rest.as_slice()))
    } else {
        TrayAction::Ignore
    }
}

/// A click on a provider's line of the tray menu asks to switch to that provider.
pub proof fn lemma_provider_entry_switches(p: Provider, current: Seq<char>)
    ensures
        provider_entry(p, current) matches TrayEntryView::Item(id, _) && spec_tray_action(id)
            == TrayActionView::SwitchProvider(p.id),
{
    let id = "tray:provider:"@ + p.id;
    reveal_strlit("tray:provider:");
    reveal_strlit("tray:open");
    reveal_strlit("tray:refresh");
    reveal_strlit("tray:quit");
    assert(id[5] == 'p');
    assert(("tray:open"@)[5] == 'o');
    assert(("tray:refresh"@)[5] == 'r');
    assert(("tray:quit"@)[5] == 'q');
    assert(id != "tray:open"@);
    assert(id != "tray:refresh"@);
    assert(id != "tray:quit"@);
    assert(id.subrange(0, ("tray:provider:"@).len() as int) =~= "tray:provider:"@);
    assert(id.skip(("tray:provider:"@).len() as int) =~= p.id);
}

} // verus!
