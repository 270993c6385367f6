//! Which of the plugins are used.

use crate::complaint::{because_of, over, plain, Complaint, ComplaintView};
use crate::http_api::parse_plugin_ids;
use crate::lexical_path::LexicalPath;
use crate::outside::{
    add_glob_mask, build_glob_set, debug_list, glob_set_matches, new_glob_builder,
};
use crate::plugin_engine::manifest::LoadedPlugin;
use vstd::prelude::*;

verus! {

/// The masks in a text, with commas between them.
pub open spec fn masks_of(raw: Seq<char>) -> Seq<Seq<char>> {
    crate::http_api::listed_ids(crate::text::split_on(raw, ','))
}

/// The first text of a list that is no mask.
pub open spec fn first_bad_mask(masks: Seq<Seq<char>>) -> Option<Seq<char>>
    decreases masks.len(),
{
    if masks.len() == 0 {
        None
    } else if crate::outside::glob_problem(masks[0]) is Some {
        Some(masks[0])
    } else {
        first_bad_mask(masks.drop_first())
    }
}

/// True if any of the masks matches the name of a plugin.
pub open spec fn enables(masks: Seq<Seq<char>>, plugin_id: Seq<char>) -> bool {
    exists|i: int|
        0 <= i < masks.len() && crate::outside::glob_matches(#[trigger] masks[i], plugin_id)
}

/// Why a list of masks cannot be used; nothing where there are masks and each of them is one.
pub open spec fn mask_complaint(masks: Seq<Seq<char>>) -> Option<ComplaintView> {
    if masks.len() == 0 {
        Some(plain("enabled plugin mask list is empty"@))
    } else {
        match first_bad_mask(masks) {
            Some(mask) => Some(
                because_of(
                    "invalid enabled plugin glob mask '"@ + mask + "'"@,
                    crate::outside::glob_problem(mask)->0,
                ),
            ),
            None => None,
        }
    }
}

/// True for a complaint about masks that cannot be compiled together.
pub open spec fn is_compile_complaint(complaint: ComplaintView) -> bool {
    &&& complaint.message == "failed to compile enabled plugin glob masks"@
    &&& complaint.causes.len() == 1
}

/// The masks that say which plugins are used.
#[derive(Debug)]
pub struct EnabledPluginsMatcher {
    glob_set: globset::GlobSet,
}

impl EnabledPluginsMatcher {
    /// The masks.
    pub closed spec fn masks(&self) -> Seq<Seq<char>> {
        crate::outside::set_masks(self.glob_set)
    }

    /// The masks in a text, with commas between them. A text without a mask, or with one that
    /// is none, is refused; so are masks that cannot be compiled together.
    pub fn from_csv(raw: &str) -> (r: Result<Self, Complaint>)
        ensures
            mask_complaint(masks_of(raw@)) matches Some(owed) ==> (r matches Err(complaint)
                && complaint@ == owed),
            mask_complaint(masks_of(raw@)) is None ==> r is Ok == crate::outside::masks_compile(
                masks_of(raw@),
                usize::BITS as int,
            ),
            mask_complaint(masks_of(raw@)) is None ==> match r {
                Ok(matcher) => matcher.masks() == masks_of(raw@),
                Err(complaint) => is_compile_complaint(complaint@),
            },
    {
        let masks = match parse_plugin_ids(&Some(raw.to_string())) {
            Some(masks) => masks,
            None => {
                return Err(Complaint::new("enabled plugin mask list is empty".to_string()));
            },
        };
        let ghost all = crate::text::views(masks@);
        let mut builder = new_glob_builder();
        let mut i: usize = 0;
        assert(all.skip(0) =~= all);
        assert(all.take(0) =~= Seq::<Seq<char>>::empty());
        while i < masks.len()
            invariant
                i <= masks@.len(),
                all == crate::text::views(masks@),
                all == masks_of(raw@),
                all.len() > 0,
                first_bad_mask(all) == first_bad_mask(all.skip(i as int)),
                crate::outside::builder_masks(builder) == all.take(i as int),
            decreases masks@.len() - i,
        {
            let ghost rest = all.skip(i as int);
            assert(rest[0] == masks@[i as int]@);
            assert(rest.drop_first() =~= all.skip(i + 1));
            assert(all.take(i + 1) =~= all.take(i as int).push(masks@[i as int]@));
            match add_glob_mask(&mut builder, masks[i].as_str()) {
                Ok(_) => {},
                Err(problem) => {
                    let mut message = "invalid enabled plugin glob mask '".to_string();
                    message.append(masks[i].as_str());
                    message.append("'");
                    return Err(Complaint::because(message, problem));
                },
            }
            i = i + 1;
        }
        assert(all.skip(all.len() as int).len() == 0);
        assert(all.take(all.len() as int) =~= all);
        Self::from_built(build_glob_set(&builder))
    }

    /// The masks of a set, where there is one; else the complaint, with why there is none.
    pub fn from_built(built: Result<globset::GlobSet, String>) -> (r: Result<Self, Complaint>)
        ensures
            match (built, r) {
                (Ok(set), Ok(matcher)) => matcher.masks() == crate::outside::set_masks(set),
                (Err(problem), Err(complaint)) => complaint@ == because_of(
                    "failed to compile enabled plugin glob masks"@,
                    problem@,
                ),
                _ => false,
            },
    {
        match built {
            Ok(glob_set) => Ok(EnabledPluginsMatcher { glob_set }),
            Err(problem) => Err(
                Complaint::because(
                    "failed to compile enabled plugin glob masks".to_string(),
                    problem,
                ),
            ),
        }
    }

    /// True if the plugin is used.
    pub fn is_enabled(&self, plugin_id: &str) -> (r: bool)
        ensures
            r == enables(self.masks(), plugin_id@),
    {
        glob_set_matches(&self.glob_set, plugin_id)
    }
}

/// More masks never take a plugin away.
pub proof fn law_masks_only_add(masks: Seq<Seq<char>>, more: Seq<Seq<char>>, plugin_id: Seq<char>)
    ensures
        enables(masks + more, plugin_id) <==> enables(masks, plugin_id) || enables(more, plugin_id),
{
    let both = masks + more;
    if enables(masks, plugin_id) {
        let i = choose|i: int|
            0 <= i < masks.len() && crate::outside::glob_matches(#[trigger] masks[i], plugin_id);
        assert(both[i] == masks[i]);
    }
    if enables(more, plugin_id) {
        let i = choose|i: int|
            0 <= i < more.len() && crate::outside::glob_matches(#[trigger] more[i], plugin_id);
        assert(both[masks.len() + i] == more[i]);
    }
    if enables(both, plugin_id) {
        let i = choose|i: int|
            0 <= i < both.len() && crate::outside::glob_matches(#[trigger] both[i], plugin_id);
        if i < masks.len() {
            assert(masks[i] == both[i]);
        } else {
            assert(more[i - masks.len()] == both[i]);
        }
    }
}

/// The plugins that are used, in their order.
pub open spec fn enabled_only(plugins: Seq<LoadedPlugin>, masks: Seq<Seq<char>>) -> Seq<
    LoadedPlugin,
>
    decreases plugins.len(),
{
    if plugins.len() == 0 {
        Seq::empty()
    } else {
        let rest = enabled_only(plugins.drop_first(), masks);
        if enables(masks, plugins[0].manifest.id@) {
            seq![plugins[0]] + rest
        } else {
            rest
        }
    }
}

/// The complaint that no plugin is left.
pub open spec fn none_enabled_text(enabled_plugins: Seq<char>, ids: Seq<Seq<char>>) -> Seq<char> {
    "no plugins enabled after applying enabled_plugins='"@ + enabled_plugins
        + "'. loaded plugin ids: "@ + crate::outside::debug_list_text(ids)
}

/// The plugins that are used, or the complaint that none is.
pub fn keep_enabled(
    loaded: Vec<LoadedPlugin>,
    matcher: &EnabledPluginsMatcher,
    enabled_plugins: &str,
) -> (r: Result<Vec<LoadedPlugin>, String>)
    ensures
        r is Ok == (enabled_only(loaded@, matcher.masks()).len() > 0),
        r matches Ok(kept) ==> kept@ == enabled_only(loaded@, matcher.masks()),
        r matches Err(message) ==> message@ == none_enabled_text(
            enabled_plugins@,
            crate::daemon::plugin_ids(loaded@),
        ),
{
    let mut ids: Vec<String> = Vec::new();
    let mut kept: Vec<LoadedPlugin> = Vec::new();
    let mut rest = loaded;
    let ghost all = loaded@;
    let ghost mut done: int = 0;
    assert(all.skip(0) =~= all);
    while rest.len() > 0
        invariant
            all == loaded@,
            0 <= done <= all.len(),
            rest@ == all.skip(done),
            crate::text::views(ids@) == crate::daemon::plugin_ids(all).take(done),
            enabled_only(all, matcher.masks()) == kept@ + enabled_only(rest@, matcher.masks()),
        decreases rest@.len(),
    {
        let ghost before = rest@;
        let ghost earlier = kept@;
        let ghost seen = ids@;
        let plugin = rest.remove(0);
        assert(rest@ =~= before.drop_first());
        assert(rest@ =~= all.skip(done + 1));
        assert(plugin == all[done]);
        ids.push(plugin.manifest.id.clone());
        assert(crate::text::views(ids@) =~= crate::text::views(seen).push(plugin.manifest.id@));
        assert(crate::daemon::plugin_ids(all).take(done + 1) =~= crate::daemon::plugin_ids(
            all,
        ).take(done).push(plugin.manifest.id@));
        if matcher.is_enabled(plugin.manifest.id.as_str()) {
            kept.push(plugin);
            assert(kept@ + enabled_only(rest@, matcher.masks()) =~= earlier + enabled_only(
                before,
                matcher.masks(),
            ));
        }
        proof {
            done = done + 1;
        }
    }
    assert(kept@ + enabled_only(rest@, matcher.masks()) =~= kept@);
    assert(crate::daemon::plugin_ids(all).take(all.len() as int) =~= crate::daemon::plugin_ids(all));
    if kept.len() == 0 {
        let mut message = "no plugins enabled after applying enabled_plugins='".to_string();
        message.append(enabled_plugins);
        message.append("'. loaded plugin ids: ");
        let list = debug_list(&ids);
        message.append(list.as_str());
        return Err(message);
    }
    Ok(kept)
}

/// Every plugin that is used was loaded and is named by a mask, and no loaded plugin that a
/// mask names is left out.
pub proof fn law_enabled_plugins_are_those_named(
    plugins: Seq<LoadedPlugin>,
    masks: Seq<Seq<char>>,
    plugin: LoadedPlugin,
)
    ensures
        enabled_only(plugins, masks).contains(plugin) <==> plugins.contains(plugin) && enables(
            masks,
            plugin.manifest.id@,
        ),
    decreases plugins.len(),
{
    let kept = enabled_only(plugins, masks);
    if plugins.len() > 0 {
        let tail = plugins.drop_first();
        let rest = enabled_only(tail, masks);
        law_enabled_plugins_are_those_named(tail, masks, plugin);
        assert(plugins =~= seq![plugins[0]] + tail);
        if tail.contains(plugin) {
            let i = choose|i: int| 0 <= i < tail.len() && tail[i] == plugin;
            assert(plugins[i + 1] == plugin);
        }
        if plugins.contains(plugin) && plugins[0] != plugin {
            let i = choose|i: int| 0 <= i < plugins.len() && plugins[i] == plugin;
            assert(tail[i - 1] == plugin);
        }
        if plugins[0] == plugin {
            assert(plugins.contains(plugin));
        }
        if enables(masks, plugins[0].manifest.id@) {
            assert(kept[0] == plugins[0]);
            if rest.contains(plugin) {
                let i = choose|i: int| 0 <= i < rest.len() && rest[i] == plugin;
                assert(kept[i + 1] == plugin);
            }
            if kept.contains(plugin) && plugins[0] != plugin {
                let i = choose|i: int| 0 <= i < kept.len() && kept[i] == plugin;
                assert(rest[i - 1] == plugin);
            }
        }
    }
}

/// The complaint that there are no plugins.
pub open spec fn no_plugins_text(plugins_dir: Seq<char>) -> Seq<char> {
    "no plugins found in "@ + plugins_dir
        + " (set --plugins-dir or install plugin data under <prefix>/share/openusage-cli/openusage-plugins)"@
}

/// The complaint about masks that cannot be used.
pub open spec fn bad_masks_text(enabled_plugins: Seq<char>) -> Seq<char> {
    "invalid enabled_plugins value '"@ + enabled_plugins
        + "' (expected comma-separated glob masks)"@
}

/// True for a complaint about masks that cannot be used because they cannot be compiled
/// together.
pub open spec fn is_unusable_masks_complaint(
    complaint: ComplaintView,
    enabled_plugins: Seq<char>,
) -> bool {
    exists|inner: ComplaintView| #[trigger]
        is_compile_complaint(inner) && complaint == over(bad_masks_text(enabled_plugins), inner)
}

/// The plugins of a directory that are used, or why there are none.
pub fn select_plugins(
    loaded: Vec<LoadedPlugin>,
    plugins_dir: &LexicalPath,
    enabled_plugins: &str,
) -> (r: Result<Vec<LoadedPlugin>, Complaint>)
    ensures
        ({
            let masks = masks_of(enabled_plugins@);
            let kept = enabled_only(loaded@, masks);
            if loaded@.len() == 0 {
                r matches Err(complaint) && complaint@ == plain(
                    no_plugins_text(plugins_dir.written()),
                )
            } else if mask_complaint(masks) is Some {
                r matches Err(complaint) && complaint@ == over(
                    bad_masks_text(enabled_plugins@),
                    mask_complaint(masks)->0,
                )
            } else {
                let compiled = crate::outside::masks_compile(masks, usize::BITS as int);
                &&& r is Ok == (compiled && kept.len() > 0)
                &&& r matches Ok(plugins) ==> plugins@ == kept
                &&& r matches Err(complaint) ==> if compiled {
                    complaint@ == plain(
                        none_enabled_text(enabled_plugins@, crate::daemon::plugin_ids(loaded@)),
                    )
                } else {
                    is_unusable_masks_complaint(complaint@, enabled_plugins@)
                }
            }
        }),
{
    if loaded.len() == 0 {
        let mut message = "no plugins found in ".to_string();
        let dir = plugins_dir.to_text();
        message.append(dir.as_str());
        message.append(
            " (set --plugins-dir or install plugin data under <prefix>/share/openusage-cli/openusage-plugins)",
        );
        return Err(Complaint::new(message));
    }
    match EnabledPluginsMatcher::from_csv(enabled_plugins) {
        Ok(matcher) => match keep_enabled(loaded, &matcher, enabled_plugins) {
            Ok(kept) => Ok(kept),
            Err(message) => Err(Complaint::new(message)),
        },
        Err(cause) => {
            let mut message = "invalid enabled_plugins value '".to_string();
            message.append(enabled_plugins);
            message.append("' (expected comma-separated glob masks)");
            Err(Complaint::over(message, cause))
        },
    }
}

} // verus!
