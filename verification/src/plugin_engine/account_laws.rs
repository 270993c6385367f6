//! What holds of the accounts that a plugin discovers, whatever its script returned.

use crate::outside::sha256_digest;
use crate::plugin_engine::accounts::{
    account_id_from_digest, canonical_discovery_account_id, descriptor_views, hex_digit, hex_text,
    parse_discovery_accounts, plan_accounts, read_element, read_elements, AccountElement,
    AccountObject, AccountPlan, DescriptorView, DiscoveryDescriptor, ErrorPolicy,
};
use crate::plugin_engine::js_value::{JsValue, Slot};
use crate::plugin_engine::line_laws::{holds, holds_any};
use crate::plugin_engine::manifest::LoadedPlugin;
use crate::plugin_engine::output::{AccountRef, PluginOutput};
use crate::plugin_engine::runtime::{begin_discovery, DiscoveryCall, DiscoveryStep};
use crate::text::{decimal, is_blank};
use vstd::prelude::*;
use vstd::utf8::encode_utf8;

verus! {

/// True for a property that was left out.
pub open spec fn is_left_out(slot: Slot) -> bool {
    slot == Slot::Value(JsValue::Undefined) || slot == Slot::Value(JsValue::Null)
}

/// True for a property that was left out or holds a text that is not blank.
pub open spec fn is_fine(slot: Slot) -> bool {
    is_left_out(slot) || (slot matches Slot::Value(JsValue::Text(own)) && !is_blank(own@))
}

/// True for a property that was left out or says yes or no.
pub open spec fn is_answer(slot: Slot) -> bool {
    is_left_out(slot) || slot matches Slot::Value(JsValue::Bool(_))
}

/// True if all properties of an account are as they have to be.
pub open spec fn is_acceptable(o: AccountObject) -> bool {
    &&& o.id matches Slot::Value(JsValue::Text(own)) && !is_blank(own@)
    &&& is_fine(o.name)
    &&& is_fine(o.origin)
    &&& is_answer(o.is_active)
    &&& is_fine(o.origin_namespace)
    &&& is_fine(o.stable_subject_key)
    &&& is_fine(o.source_ref)
    &&& is_left_out(o.error_policy) || holds(o.error_policy, "hide-if-other-account"@)
}

/// True if an element is an account as it has to be.
pub open spec fn is_account(element: AccountElement) -> bool {
    element matches AccountElement::Object(o) && is_acceptable(o)
}

/// True if a text is that of a property, and none where the property was left out.
pub open spec fn is_text_of(text: Option<String>, slot: Slot) -> bool {
    if is_left_out(slot) {
        text is None
    } else {
        text matches Some(t) && holds(slot, t@)
    }
}

/// True if a text is that of a property, and another where the property was left out.
pub open spec fn is_text_or(text: String, slot: Slot, other: Seq<char>) -> bool {
    if is_left_out(slot) {
        text@ == other
    } else {
        holds(slot, text@)
    }
}

/// True if an answer is that of a property, and yes where the property was left out.
pub open spec fn is_answer_of(answer: bool, slot: Slot) -> bool {
    if is_left_out(slot) {
        answer
    } else {
        slot == Slot::Value(JsValue::Bool(answer))
    }
}

/// True if an account is the one that an object speaks of.
pub open spec fn is_described(d: DiscoveryDescriptor, o: AccountObject) -> bool {
    &&& holds(o.id, d.probe_id@)
    &&& is_text_of(d.name, o.name)
    &&& is_text_or(d.origin, o.origin, "native"@)
    &&& is_answer_of(d.is_active, o.is_active)
    &&& is_text_or(d.origin_namespace, o.origin_namespace, "default"@)
    &&& is_text_of(d.stable_subject_key, o.stable_subject_key)
    &&& is_text_of(d.source_ref, o.source_ref)
    &&& d.error_policy == ErrorPolicy::Report <==> is_left_out(o.error_policy)
    &&& d.error_policy == ErrorPolicy::HideIfOtherAccount <==> holds(
        o.error_policy,
        "hide-if-other-account"@,
    )
}

proof fn lemma_elements_are_read(elements: Seq<AccountElement>)
    ensures
        read_elements(elements) is Ok <==> forall|i: int|
            0 <= i < elements.len() ==> read_element(#[trigger] elements[i], i) is Ok,
        read_elements(elements) matches Ok(list) ==> list.len() == elements.len() && forall|i: int|
            0 <= i < elements.len() ==> read_element(#[trigger] elements[i], i) == Ok::<
                DescriptorView,
                Seq<char>,
            >(list[i]),
    decreases elements.len(),
{
    if elements.len() > 0 {
        let init = elements.drop_last();
        lemma_elements_are_read(init);
        assert forall|i: int| 0 <= i < init.len() implies init[i] == #[trigger] elements[i] by {}
        if forall|i: int| 0 <= i < elements.len() ==> read_element(#[trigger] elements[i], i) is Ok {
            assert forall|i: int| 0 <= i < init.len() implies read_element(
                #[trigger] init[i],
                i,
            ) is Ok by {
                assert(read_element(elements[i], i) is Ok);
            }
            assert(read_element(elements[elements.len() - 1], elements.len() - 1) is Ok);
        }
    }
}

/// A list is accepted exactly where it has no more than 32 elements, each of them an account
/// as it has to be, and each account that comes of it is the one that its element speaks of:
/// where `isActive` is yes or no, the account says the same, and where it was left out the
/// account is in use.
pub proof fn law_accounts_are_those_of_the_list(
    elements: &Vec<AccountElement>,
    r: Result<Vec<DiscoveryDescriptor>, String>,
)
    requires
        call_ensures(parse_discovery_accounts, (elements,), r),
    ensures
        r is Ok <==> elements@.len() <= 32 && forall|i: int|
            0 <= i < elements@.len() ==> is_account(#[trigger] elements@[i]),
        r matches Ok(list) ==> list@.len() == elements@.len() && forall|i: int|
            0 <= i < list@.len() ==> is_described(
                #[trigger] list@[i],
                elements@[i]->Object_0,
            ),
{
    lemma_elements_are_read(elements@);
    assert forall|i: int| 0 <= i < elements@.len() implies (is_account(#[trigger] elements@[i])
        <==> read_element(elements@[i], i) is Ok) by {
        lemma_blank_text();
    }
    if let Ok(list) = r {
        let views = descriptor_views(list@);
        assert forall|i: int| 0 <= i < list@.len() implies is_described(
            #[trigger] list@[i],
            elements@[i]->Object_0,
        ) by {
            assert(views[i] == list@[i]@);
            assert(read_element(elements@[i], i) is Ok);
            assert(is_account(elements@[i]));
        }
    }
}

proof fn lemma_blank_text()
    ensures
        is_blank(Seq::<char>::empty()),
        "hide-if-other-account"@ != Seq::<char>::empty(),
{
    reveal_strlit("hide-if-other-account");
    assert(Seq::<char>::empty().len() == 0);
    assert("hide-if-other-account"@.len() == 21);
}

/// Beginning of what is said of an element.
pub open spec fn element_at(i: int) -> Seq<char> {
    "discoverAccounts: element at index "@ + decimal(i as nat)
}

/// True if a message says what is wrong with a text that may be left out but not be empty.
pub open spec fn says_why(message: Seq<char>, i: int, slot: Slot, field: Seq<char>) -> bool {
    &&& slot is Threw ==> message == element_at(i) + (" has invalid "@ + field
        + " (accessor threw)"@)
    &&& holds_any(slot, Seq::empty()) ==> message == element_at(i) + (" has empty "@ + field)
    &&& forall|text: Seq<char>| #[trigger]
        holds(slot, text) && is_blank(text) ==> message == element_at(i) + (" has empty "@ + field)
    &&& (slot matches Slot::Value(value) && !(value is Text) && !(value is BrokenText))
        ==> message == element_at(i) + (" has non-string "@ + field)
}

/// A list that is not accepted is refused with what is wrong with its first bad element, of
/// which the properties are looked at in a fixed order; one that is too long is refused as a
/// whole.
pub proof fn law_bad_account_says_why(
    elements: &Vec<AccountElement>,
    i: int,
    r: Result<Vec<DiscoveryDescriptor>, String>,
)
    requires
        call_ensures(parse_discovery_accounts, (elements,), r),
    ensures
        elements@.len() > 32 ==> (r matches Err(message) && message@
            == "discoverAccounts returned "@ + decimal(elements@.len()) + " accounts (max "@
            + decimal(32) + ")"@),
        elements@.len() <= 32 && 0 <= i < elements@.len() && !is_account(elements@[i]) && (forall|
            k: int,
        |
            0 <= k < i ==> is_account(#[trigger] elements@[k])) ==> (r matches Err(message)
            && match elements@[i] {
            AccountElement::Threw => message@ == "discoverAccounts: invalid element at index "@
                + decimal(i as nat),
            AccountElement::NotObject => message@ == element_at(i) + " must be an object"@,
            AccountElement::Object(o) => {
                let says = message@;
                &&& !(o.id matches Slot::Value(JsValue::Text(_))) ==> says == element_at(i)
                    + " missing id"@
                &&& o.id matches Slot::Value(JsValue::Text(id)) ==> {
                    &&& is_blank(id@) ==> says == element_at(i) + " has empty id"@
                    &&& !is_blank(id@) ==> {
                        &&& !is_fine(o.name) ==> says_why(says, i, o.name, "name"@)
                        &&& is_fine(o.name) && !is_fine(o.origin) ==> says_why(
                            says,
                            i,
                            o.origin,
                            "origin"@,
                        )
                        &&& is_fine(o.name) && is_fine(o.origin) ==> {
                            &&& o.is_active is Threw ==> says == element_at(i)
                                + " has invalid isActive (accessor threw)"@
                            &&& o.is_active is Value && !is_answer(o.is_active) ==> says
                                == element_at(i) + " has non-boolean isActive"@
                            &&& is_answer(o.is_active) ==> {
                                &&& !is_fine(o.origin_namespace) ==> says_why(
                                    says,
                                    i,
                                    o.origin_namespace,
                                    "originNamespace"@,
                                )
                                &&& is_fine(o.origin_namespace) && !is_fine(o.stable_subject_key)
                                    ==> says_why(says, i, o.stable_subject_key, "stableSubjectKey"@)
                                &&& is_fine(o.origin_namespace) && is_fine(o.stable_subject_key)
                                    && !is_fine(o.source_ref) ==> says_why(
                                    says,
                                    i,
                                    o.source_ref,
                                    "sourceRef"@,
                                )
                                &&& is_fine(o.origin_namespace) && is_fine(o.stable_subject_key)
                                    && is_fine(o.source_ref) ==> {
                                    &&& forall|policy: Seq<char>| #[trigger]
                                        holds(o.error_policy, policy) ==> says == element_at(i) + (
                                        " has invalid errorPolicy '"@ + policy + "'"@)
                                    &&& o.error_policy is Threw ==> says == element_at(i)
                                        + " has invalid errorPolicy (accessor threw)"@
                                    &&& o.error_policy matches Slot::Value(policy) ==> !(
                                    policy is Text) && !(policy is BrokenText) ==> says
                                        == element_at(i) + " has non-string errorPolicy"@
                                }
                            }
                        }
                    }
                }
            },
        }),
{
    let all = elements@;
    if all.len() <= 32 && 0 <= i < all.len() && !is_account(all[i]) && (forall|k: int|
        0 <= k < i ==> is_account(#[trigger] all[k])) {
        lemma_blank_text();
        let head = all.take(i);
        let next = all.take(i + 1);
        lemma_elements_are_read(head);
        assert forall|k: int| 0 <= k < head.len() implies read_element(
            #[trigger] head[k],
            k,
        ) is Ok by {
            assert(is_account(all[k]));
        }
        assert(next.drop_last() =~= head);
        assert(next.last() == all[i]);
        assert(read_element(all[i], i) is Err);
        crate::plugin_engine::accounts::lemma_first_complaint_stays(all, i + 1);
    }
}

/// The number that a digit below sixteen stands for.
pub open spec fn hex_value(c: char) -> int {
    if '0' <= c <= '9' {
        c as int - '0' as int
    } else if 'a' <= c <= 'f' {
        c as int - 'a' as int + 10
    } else {
        -1
    }
}

proof fn lemma_hex_text(bytes: Seq<u8>)
    ensures
        hex_text(bytes).len() == 2 * bytes.len(),
        forall|k: int|
            0 <= k < bytes.len() ==> #[trigger] bytes[k] == 16 * hex_value(hex_text(bytes)[2 * k])
                + hex_value(hex_text(bytes)[2 * k + 1]) && 0 <= hex_value(hex_text(bytes)[2 * k])
                && 0 <= hex_value(hex_text(bytes)[2 * k + 1]),
    decreases bytes.len(),
{
    if bytes.len() > 0 {
        let init = bytes.drop_last();
        lemma_hex_text(init);
        let b = bytes.last() as int;
        let all = hex_text(bytes);
        assert(all[2 * init.len() as int] == hex_digit(b / 16));
        assert(all[2 * init.len() as int + 1] == hex_digit(b % 16));
        assert forall|k: int| 0 <= k < bytes.len() implies #[trigger] bytes[k] == 16 * hex_value(
            all[2 * k],
        ) + hex_value(all[2 * k + 1]) && 0 <= hex_value(all[2 * k]) && 0 <= hex_value(
            all[2 * k + 1],
        ) by {
            if k < init.len() {
                assert(init[k] == bytes[k]);
                assert(all[2 * k] == hex_text(init)[2 * k]);
                assert(all[2 * k + 1] == hex_text(init)[2 * k + 1]);
            }
        }
    }
}

/// What an account is known by: the provider, where the account comes from, and who it is.
pub open spec fn fingerprint(provider_id: Seq<char>, d: DiscoveryDescriptor) -> Seq<char> {
    "acc_v1|"@ + provider_id + "|"@ + d.origin@ + "|"@ + d.origin_namespace@ + "|"@ + (
    match d.stable_subject_key {
        Some(key) => key@,
        None => d.probe_id@,
    }) + "|"@ + (match d.source_ref {
        Some(source) => source@,
        None => Seq::empty(),
    })
}

/// The stable identity of an account is `default` for the default account of the provider
/// itself, and else twelve bytes of a digest of what the account is known by, as small
/// hexadecimal digits; neither its name nor whether it is in use has a part in it.
pub proof fn law_identity_is_stable(provider_id: &str, d: &DiscoveryDescriptor, r: String, k: int)
    requires
        call_ensures(canonical_discovery_account_id, (provider_id, d), r),
    ensures
        d.probe_id@ == "default"@ && d.origin@ == "native"@ ==> r@ == "default"@,
        !(d.probe_id@ == "default"@ && d.origin@ == "native"@) ==> {
            let digest = sha256_digest(encode_utf8(fingerprint(provider_id@, *d)));
            &&& digest.len() >= 12 ==> r@.len() == 31 && r@.take(7) == "acc_v1_"@
            &&& digest.len() >= 12 && 0 <= k < 12 ==> digest[k] == 16 * hex_value(r@[7 + 2 * k])
                + hex_value(r@[8 + 2 * k]) && 0 <= hex_value(r@[7 + 2 * k]) && 0 <= hex_value(
                r@[8 + 2 * k],
            )
        },
{
    reveal_strlit("acc_v1_");
    let digest = sha256_digest(encode_utf8(fingerprint(provider_id@, *d)));
    if !(d.probe_id@ == "default"@ && d.origin@ == "native"@) && digest.len() >= 12 {
        let short = digest.take(12);
        lemma_hex_text(short);
        assert(r@ == "acc_v1_"@ + hex_text(short));
        assert(r@.take(7) =~= "acc_v1_"@);
        if 0 <= k < 12 {
            assert(short[k] == digest[k]);
            assert(r@[7 + 2 * k] == hex_text(short)[2 * k]);
            assert(r@[8 + 2 * k] == hex_text(short)[2 * k + 1]);
        }
    }
}

/// True if a plan is that of an account: the plugin is asked for it by the identity that the
/// plugin gave it, and both times it comes from where it comes from and is in use if it is.
pub open spec fn is_plan_of(plan: AccountPlan, d: DiscoveryDescriptor) -> bool {
    &&& plan.probe.id@ == d.probe_id@
    &&& plan.probe.origin@ == d.origin@
    &&& plan.probe.is_active == d.is_active
    &&& plan.probe.name is None
    &&& plan.output.origin@ == d.origin@
    &&& plan.output.is_active == d.is_active
    &&& plan.output.name is Some == d.name is Some
    &&& plan.output.name matches Some(name) ==> name@ == d.name->0@
    &&& plan.error_policy == d.error_policy
}

/// Accounts are asked for and reported one for one and in order, no two under one identity.
/// An account that shares its identity with no other keeps it; one that shares it is reported
/// under its stable identity.
pub proof fn law_accounts_are_planned_one_by_one(
    provider_id: &str,
    accounts: &Vec<DiscoveryDescriptor>,
    i: int,
    stable: String,
    r: Result<Vec<AccountPlan>, String>,
)
    requires
        call_ensures(plan_accounts, (provider_id, accounts), r),
    ensures
        r matches Ok(plans) ==> {
            &&& plans@.len() == accounts@.len()
            &&& forall|k: int|
                0 <= k < plans@.len() ==> is_plan_of(#[trigger] plans@[k], accounts@[k])
            &&& forall|k: int, l: int|
                0 <= k < l < plans@.len() ==> (#[trigger] plans@[k]).output.id@ != (
                #[trigger] plans@[l]).output.id@
            &&& 0 <= i < plans@.len() && (forall|k: int|
                0 <= k < plans@.len() && k != i ==> (#[trigger] accounts@[k]).probe_id@
                    != accounts@[i].probe_id@) ==> plans@[i].output.id@ == accounts@[i].probe_id@
            &&& 0 <= i < plans@.len() && (exists|k: int|
                0 <= k < plans@.len() && k != i && (#[trigger] accounts@[k]).probe_id@
                    == accounts@[i].probe_id@) && call_ensures(
                canonical_discovery_account_id,
                (provider_id, &accounts@[i]),
                stable,
            ) ==> plans@[i].output.id@ == stable@
        },
        r is Err ==> exists|k: int, l: int|
            0 <= k < l < accounts@.len() && (#[trigger] accounts@[k]).probe_id@ == (
            #[trigger] accounts@[l]).probe_id@,
        r matches Err(message) ==> exists|id: Seq<char>|
            message@ == #[trigger] ("discoverAccounts produced duplicate output account id '"@ + id)
                + "'"@,
{
    let all = descriptor_views(accounts@);
    let ids = crate::plugin_engine::accounts::report_ids(provider_id@, all);
    crate::plugin_engine::accounts::law_no_repeat_means_distinct(ids);
    assert forall|k: int| 0 <= k < accounts@.len() implies all[k] == (
    #[trigger] accounts@[k])@ by {}
    if let Ok(plans) = r {
        assert forall|k: int| 0 <= k < plans@.len() implies is_plan_of(
            #[trigger] plans@[k],
            accounts@[k],
        ) by {
            assert(plans@[k].output@
                == crate::plugin_engine::accounts::reported_account(provider_id@, all, k));
            assert(all[k] == accounts@[k]@);
        }
        assert forall|k: int, l: int| 0 <= k < l < plans@.len() implies (
        #[trigger] plans@[k]).output.id@ != (#[trigger] plans@[l]).output.id@ by {
            assert(plans@[k].output@.id == ids[k]);
            assert(plans@[l].output@.id == ids[l]);
            assert(ids[k] != ids[l]);
        }
        if 0 <= i < plans@.len() {
            assert(plans@[i].output@
                == crate::plugin_engine::accounts::reported_account(provider_id@, all, i));
            assert(all[i] == accounts@[i]@);
            if forall|k: int|
                0 <= k < plans@.len() && k != i ==> (#[trigger] accounts@[k]).probe_id@
                    != accounts@[i].probe_id@ {
                assert(!crate::plugin_engine::accounts::is_shared(all, i)) by {
                    if crate::plugin_engine::accounts::is_shared(all, i) {
                        let j = choose|j: int|
                            0 <= j < all.len() && j != i && (#[trigger] all[j]).probe_id
                                == all[i].probe_id;
                        assert(accounts@[j].probe_id@ == accounts@[i].probe_id@);
                    }
                }
            }
            if exists|k: int|
                0 <= k < plans@.len() && k != i && (#[trigger] accounts@[k]).probe_id@
                    == accounts@[i].probe_id@ {
                let j = choose|k: int|
                    0 <= k < plans@.len() && k != i && (#[trigger] accounts@[k]).probe_id@
                        == accounts@[i].probe_id@;
                assert(all[j].probe_id == all[i].probe_id);
                assert(crate::plugin_engine::accounts::is_shared(all, i));
            }
        }
    } else {
        if forall|k: int, l: int|
            0 <= k < l < accounts@.len() ==> (#[trigger] accounts@[k]).probe_id@ != (
            #[trigger] accounts@[l]).probe_id@ {
            assert forall|k: int, l: int| 0 <= k < l < all.len() implies (
            #[trigger] all[k]).probe_id != (#[trigger] all[l]).probe_id by {
                assert(accounts@[k].probe_id@ != accounts@[l].probe_id@);
            }
            crate::plugin_engine::accounts::law_distinct_ids_are_kept(provider_id@, all);
        }
    }
}

/// True if a report speaks of a failure, under the default account.
pub open spec fn is_failure_report(
    output: PluginOutput,
    plugin: LoadedPlugin,
    message: Seq<char>,
) -> bool {
    &&& output.provider_id@ == plugin.manifest.id@
    &&& output.display_name@ == plugin.manifest.name@
    &&& output.icon_url@ == plugin.icon_data_url@
    &&& output.plan is None
    &&& output.lines@.len() == 1
    &&& crate::plugin_engine::line_laws::is_error_badge(output.lines@[0], message)
    &&& is_default_account(output.account)
}

/// True for the account of plugins that know of none.
pub open spec fn is_default_account(account: AccountRef) -> bool {
    account.id@ == "default"@ && account.origin@ == "native"@ && account.is_active && account.name
        is None
}

/// A discovery asks for exactly the accounts of the list that the script returned, in order:
/// each with the identity that the script gave it, and in use exactly where the script says
/// so or does not say. A discovery that fails is reported, once, and one without accounts
/// reports nothing.
pub proof fn law_discovery_asks_for_the_listed_accounts(
    plugin: &LoadedPlugin,
    call: &DiscoveryCall,
    r: DiscoveryStep,
)
    requires
        call_ensures(begin_discovery, (plugin, call), r),
    ensures
        *call matches DiscoveryCall::Failed(reason) ==> (r matches DiscoveryStep::Done(outputs)
            && outputs@.len() == 1 && is_failure_report(
            outputs@[0],
            *plugin,
            "discoverAccounts failed: "@ + reason@,
        )),
        *call is NotArray ==> (r matches DiscoveryStep::Done(outputs) && outputs@.len() == 1
            && is_failure_report(
            outputs@[0],
            *plugin,
            "discoverAccounts must return an array"@,
        )),
        *call matches DiscoveryCall::Accounts(elements) ==> {
            &&& elements@.len() == 0 ==> (r matches DiscoveryStep::Done(outputs) && outputs@.len()
                == 0)
            &&& (elements@.len() > 32 || exists|i: int|
                0 <= i < elements@.len() && !is_account(#[trigger] elements@[i])) ==> (
            r matches DiscoveryStep::Done(outputs) && outputs@.len() == 1 && exists|
                message: Seq<char>,
            | #[trigger] is_failure_report(outputs@[0], *plugin, message))
        },
        r matches DiscoveryStep::Probe(plans) ==> (*call matches DiscoveryCall::Accounts(elements)
            && plans@.len() == elements@.len() && plans@.len() > 0 && forall|i: int|
            0 <= i < plans@.len() ==> is_asked_for(
                #[trigger] plans@[i],
                elements@[i]->Object_0,
            )),
{
    if let DiscoveryStep::Done(outputs) = r {
        let views = crate::plugin_engine::output::output_views(outputs@);
        if outputs@.len() > 0 {
            lemma_report_of_failure(outputs@[0], *plugin);
            assert(views[0] == outputs@[0]@);
        }
        if outputs@.len() != 1 {
            assert(views.len() == outputs@.len());
        }
    }
    if let DiscoveryCall::Accounts(elements) = *call {
        lemma_elements_are_read(elements@);
        assert forall|i: int| 0 <= i < elements@.len() implies (is_account(#[trigger] elements@[i])
            <==> read_element(elements@[i], i) is Ok) by {
            lemma_blank_text();
        }
        if elements@.len() == 0 {
            let ids = crate::plugin_engine::accounts::report_ids(
                plugin.manifest.id@,
                Seq::<DescriptorView>::empty(),
            );
            assert(ids.len() == 0);
            assert(read_elements(elements@)->Ok_0 =~= Seq::<DescriptorView>::empty());
        }
        if let DiscoveryStep::Probe(plans) = r {
            let accounts = crate::plugin_engine::runtime::discovered(*call);
            assert forall|i: int| 0 <= i < plans@.len() implies is_asked_for(
                #[trigger] plans@[i],
                elements@[i]->Object_0,
            ) by {
                assert(read_element(elements@[i], i) is Ok);
                assert(is_account(elements@[i]));
                assert(plans@[i].output@ == crate::plugin_engine::accounts::reported_account(
                    plugin.manifest.id@,
                    accounts,
                    i,
                ));
            }
        }
    }
}

proof fn lemma_report_of_failure(output: PluginOutput, plugin: LoadedPlugin)
    ensures
        forall|message: Seq<char>|
            output@ == #[trigger] crate::plugin_engine::output::error_report(
                plugin,
                message,
                crate::plugin_engine::output::default_account_view(),
            ) ==> is_failure_report(output, plugin, message),
{
    let lines = crate::plugin_engine::output::line_views(output.lines@);
    assert(output.lines@.len() > 0 ==> lines[0] == output.lines@[0]@);
    assert(lines.len() == output.lines@.len());
}

/// True if a plan is that of the account that an object speaks of.
pub open spec fn is_asked_for(plan: AccountPlan, o: AccountObject) -> bool {
    &&& holds(o.id, plan.probe.id@)
    &&& is_text_or(plan.probe.origin, o.origin, "native"@)
    &&& is_text_or(plan.output.origin, o.origin, "native"@)
    &&& is_answer_of(plan.probe.is_active, o.is_active)
    &&& is_answer_of(plan.output.is_active, o.is_active)
    &&& is_text_of(plan.output.name, o.name)
    &&& plan.error_policy == ErrorPolicy::Report <==> is_left_out(o.error_policy)
}

/// An identity is made of the first twelve bytes of a digest, two digits for each.
pub proof fn law_identity_is_made_of_the_digest(digest: &Vec<u8>, r: String, k: int)
    requires
        call_ensures(account_id_from_digest, (digest,), r),
        digest@.len() >= 12,
    ensures
        r@.len() == 31,
        r@.take(7) == "acc_v1_"@,
        0 <= k < 12 ==> digest@[k] == 16 * hex_value(r@[7 + 2 * k]) + hex_value(r@[8 + 2 * k]),
{
    reveal_strlit("acc_v1_");
    let short = digest@.take(12);
    lemma_hex_text(short);
    assert(r@.take(7) =~= "acc_v1_"@);
    if 0 <= k < 12 {
        assert(short[k] == digest@[k]);
        assert(r@[7 + 2 * k] == hex_text(short)[2 * k]);
        assert(r@[8 + 2 * k] == hex_text(short)[2 * k + 1]);
    }
}

} // verus!
