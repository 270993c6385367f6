//! The accounts that a plugin discovers.

use crate::outside::{sha256, sha256_digest};
use crate::plugin_engine::js_value::{
    is_absent, slot_any_text, slot_text, JsValue, Slot,
};
use crate::plugin_engine::output::{AccountRef, AccountView};
use crate::text::{
    blank, clone_opt, decimal, decimal_text, is_blank, opt_view, same, views,
};
use vstd::prelude::*;
use vstd::utf8::encode_utf8;

verus! {

/// The largest number of accounts that a plugin may discover.
pub const MAX_ACCOUNTS: usize = 32;

/// An account, as the script gave it.
#[derive(Debug)]
pub struct AccountObject {
    pub id: Slot,
    pub name: Slot,
    pub origin: Slot,
    pub is_active: Slot,
    pub origin_namespace: Slot,
    pub stable_subject_key: Slot,
    pub source_ref: Slot,
    pub error_policy: Slot,
}

/// An element of the list that the script returned.
#[derive(Debug)]
pub enum AccountElement {
    /// Reading the element threw an exception.
    Threw,
    /// The element is no object.
    NotObject,
    /// The element is an object with these properties.
    Object(AccountObject),
}

/// What becomes of a failure for an account.
#[derive(Debug, Clone, Copy, PartialEq, Eq, Structural)]
pub enum ErrorPolicy {
    /// It is reported.
    Report,
    /// It is reported only if the account is the only one.
    HideIfOtherAccount,
}

/// A discovered account.
#[derive(Debug)]
pub struct DiscoveryDescriptor {
    pub probe_id: String,
    pub origin: String,
    pub is_active: bool,
    pub name: Option<String>,
    pub origin_namespace: String,
    pub stable_subject_key: Option<String>,
    pub source_ref: Option<String>,
    pub error_policy: ErrorPolicy,
}

/// A discovered account, as values.
pub struct DescriptorView {
    pub probe_id: Seq<char>,
    pub origin: Seq<char>,
    pub is_active: bool,
    pub name: Option<Seq<char>>,
    pub origin_namespace: Seq<char>,
    pub stable_subject_key: Option<Seq<char>>,
    pub source_ref: Option<Seq<char>>,
    pub error_policy: ErrorPolicy,
}

impl View for DiscoveryDescriptor {
    type V = DescriptorView;

    open spec fn view(&self) -> DescriptorView {
        DescriptorView {
            probe_id: self.probe_id@,
            origin: self.origin@,
            is_active: self.is_active,
            name: opt_view(self.name),
            origin_namespace: self.origin_namespace@,
            stable_subject_key: opt_view(self.stable_subject_key),
            source_ref: opt_view(self.source_ref),
            error_policy: self.error_policy,
        }
    }
}

/// Discovered accounts as values.
pub open spec fn descriptor_views(list: Seq<DiscoveryDescriptor>) -> Seq<DescriptorView> {
    list.map_values(|d: DiscoveryDescriptor| d@)
}

/// The complaint about an element.
pub open spec fn element_problem(idx: int, what: Seq<char>) -> Seq<char> {
    "discoverAccounts: element at index "@ + decimal(idx as nat) + what
}

/// A text that may be absent but not empty, or what is wrong with it.
pub open spec fn read_optional(slot: Slot, idx: int, field: Seq<char>) -> Result<
    Option<Seq<char>>,
    Seq<char>,
> {
    if is_absent(slot) {
        Ok(None)
    } else {
        match slot_any_text(slot) {
            Some(raw) => if is_blank(raw) {
                Err(element_problem(idx, " has empty "@ + field))
            } else {
                Ok(Some(raw))
            },
            None => if slot is Threw {
                Err(element_problem(idx, " has invalid "@ + field + " (accessor threw)"@))
            } else {
                Err(element_problem(idx, " has non-string "@ + field))
            },
        }
    }
}

/// The identity of an account within the plugin, or what is wrong with it.
pub open spec fn read_id(slot: Slot, idx: int) -> Result<Seq<char>, Seq<char>> {
    match slot_text(slot) {
        None => Err(element_problem(idx, " missing id"@)),
        Some(id) => if is_blank(id) {
            Err(element_problem(idx, " has empty id"@))
        } else {
            Ok(id)
        },
    }
}

/// Whether an account is in use, or what is wrong with the answer.
pub open spec fn read_active(slot: Slot, idx: int) -> Result<bool, Seq<char>> {
    if is_absent(slot) {
        Ok(true)
    } else {
        match slot {
            Slot::Value(JsValue::Bool(answer)) => Ok(answer),
            Slot::Value(_) => Err(element_problem(idx, " has non-boolean isActive"@)),
            Slot::Threw => Err(element_problem(idx, " has invalid isActive (accessor threw)"@)),
        }
    }
}

/// What becomes of a failure, or what is wrong with the answer.
pub open spec fn read_policy(slot: Slot, idx: int) -> Result<ErrorPolicy, Seq<char>> {
    if is_absent(slot) {
        Ok(ErrorPolicy::Report)
    } else {
        match slot_any_text(slot) {
            Some(raw) => if raw == "hide-if-other-account"@ {
                Ok(ErrorPolicy::HideIfOtherAccount)
            } else {
                Err(element_problem(idx, " has invalid errorPolicy '"@ + raw + "'"@))
            },
            None => if slot is Threw {
                Err(element_problem(idx, " has invalid errorPolicy (accessor threw)"@))
            } else {
                Err(element_problem(idx, " has non-string errorPolicy"@))
            },
        }
    }
}

/// A text, or another in place of none.
pub open spec fn text_or(text: Option<Seq<char>>, other: Seq<char>) -> Seq<char> {
    match text {
        Some(t) => t,
        None => other,
    }
}

/// The account that an object describes, or the first thing that is wrong with it.
pub open spec fn read_account(account: AccountObject, idx: int) -> Result<
    DescriptorView,
    Seq<char>,
> {
    match read_id(account.id, idx) {
        Err(message) => Err(message),
        Ok(probe_id) => match read_optional(account.name, idx, "name"@) {
            Err(message) => Err(message),
            Ok(name) => match read_optional(account.origin, idx, "origin"@) {
                Err(message) => Err(message),
                Ok(origin) => match read_active(account.is_active, idx) {
                    Err(message) => Err(message),
                    Ok(is_active) => match read_optional(
                        account.origin_namespace,
                        idx,
                        "originNamespace"@,
                    ) {
                        Err(message) => Err(message),
                        Ok(namespace) => match read_optional(
                            account.stable_subject_key,
                            idx,
                            "stableSubjectKey"@,
                        ) {
                            Err(message) => Err(message),
                            Ok(subject) => match read_optional(
                                account.source_ref,
                                idx,
                                "sourceRef"@,
                            ) {
                                Err(message) => Err(message),
                                Ok(source) => match read_policy(account.error_policy, idx) {
                                    Err(message) => Err(message),
                                    Ok(error_policy) => Ok(
                                        DescriptorView {
                                            probe_id,
                                            origin: text_or(origin, "native"@),
                                            is_active,
                                            name,
                                            origin_namespace: text_or(namespace, "default"@),
                                            stable_subject_key: subject,
                                            source_ref: source,
                                            error_policy,
                                        },
                                    ),
                                },
                            },
                        },
                    },
                },
            },
        },
    }
}

/// The account that an element describes, or the first thing that is wrong with it.
pub open spec fn read_element(element: AccountElement, idx: int) -> Result<
    DescriptorView,
    Seq<char>,
> {
    match element {
        AccountElement::Threw => Err(
            "discoverAccounts: invalid element at index "@ + decimal(idx as nat),
        ),
        AccountElement::NotObject => Err(element_problem(idx, " must be an object"@)),
        AccountElement::Object(account) => read_account(account, idx),
    }
}

/// The accounts of a list, or the first thing that is wrong with it.
pub open spec fn read_elements(elements: Seq<AccountElement>) -> Result<
    Seq<DescriptorView>,
    Seq<char>,
>
    decreases elements.len(),
{
    if elements.len() == 0 {
        Ok(Seq::empty())
    } else {
        match read_elements(elements.drop_last()) {
            Err(message) => Err(message),
            Ok(before) => match read_element(elements.last(), elements.len() - 1) {
                Err(message) => Err(message),
                Ok(account) => Ok(before.push(account)),
            },
        }
    }
}

/// The accounts of a list that is not too long, or the first thing that is wrong with it.
pub open spec fn read_accounts(elements: Seq<AccountElement>) -> Result<
    Seq<DescriptorView>,
    Seq<char>,
> {
    if elements.len() > MAX_ACCOUNTS {
        Err(
            "discoverAccounts returned "@ + decimal(elements.len()) + " accounts (max "@ + decimal(
                MAX_ACCOUNTS as nat,
            ) + ")"@,
        )
    } else {
        read_elements(elements)
    }
}

fn problem(idx: usize, what: &str) -> (r: String)
    ensures
        r@ == element_problem(idx as int, what@),
{
    let mut out = "discoverAccounts: element at index ".to_string();
    let number = decimal_text(idx as u128);
    out.append(number.as_str());
    out.append(what);
    out
}

fn problem_with(idx: usize, what: &str, field: &str, tail: &str) -> (r: String)
    ensures
        r@ == element_problem(idx as int, what@ + field@ + tail@),
{
    let mut all = what.to_string();
    all.append(field);
    all.append(tail);
    problem(idx, all.as_str())
}

fn parse_optional(slot: &Slot, idx: usize, field: &str) -> (r: Result<Option<String>, String>)
    ensures
        match (r, read_optional(*slot, idx as int, field@)) {
            (Ok(text), Ok(expected)) => opt_view(text) == expected,
            (Err(message), Err(expected)) => message@ == expected,
            _ => false,
        },
{
    if slot.absent() {
        return Ok(None);
    }
    proof {
        reveal_strlit("");
        assert(forall|a: Seq<char>| #[trigger] (a + ""@) =~= a);
    }
    match slot.any_text() {
        Some(raw) => {
            if blank(raw.as_str()) {
                Err(problem_with(idx, " has empty ", field, ""))
            } else {
                Ok(Some(raw))
            }
        },
        None => {
            if slot.threw() {
                Err(problem_with(idx, " has invalid ", field, " (accessor threw)"))
            } else {
                Err(problem_with(idx, " has non-string ", field, ""))
            }
        },
    }
}

fn parse_id(slot: &Slot, idx: usize) -> (r: Result<String, String>)
    ensures
        match (r, read_id(*slot, idx as int)) {
            (Ok(text), Ok(expected)) => text@ == expected,
            (Err(message), Err(expected)) => message@ == expected,
            _ => false,
        },
{
    match slot.text() {
        None => Err(problem(idx, " missing id")),
        Some(id) => {
            if blank(id.as_str()) {
                Err(problem(idx, " has empty id"))
            } else {
                Ok(id)
            }
        },
    }
}

fn parse_active(slot: &Slot, idx: usize) -> (r: Result<bool, String>)
    ensures
        match (r, read_active(*slot, idx as int)) {
            (Ok(answer), Ok(expected)) => answer == expected,
            (Err(message), Err(expected)) => message@ == expected,
            _ => false,
        },
{
    if slot.absent() {
        return Ok(true);
    }
    match slot {
        Slot::Value(JsValue::Bool(answer)) => Ok(*answer),
        Slot::Value(_) => Err(problem(idx, " has non-boolean isActive")),
        Slot::Threw => Err(problem(idx, " has invalid isActive (accessor threw)")),
    }
}

fn parse_policy(slot: &Slot, idx: usize) -> (r: Result<ErrorPolicy, String>)
    ensures
        match (r, read_policy(*slot, idx as int)) {
            (Ok(answer), Ok(expected)) => answer == expected,
            (Err(message), Err(expected)) => message@ == expected,
            _ => false,
        },
{
    if slot.absent() {
        return Ok(ErrorPolicy::Report);
    }
    match slot.any_text() {
        Some(raw) => {
            if same(raw.as_str(), "hide-if-other-account") {
                Ok(ErrorPolicy::HideIfOtherAccount)
            } else {
                Err(problem_with(idx, " has invalid errorPolicy '", raw.as_str(), "'"))
            }
        },
        None => {
            if slot.threw() {
                Err(problem(idx, " has invalid errorPolicy (accessor threw)"))
            } else {
                Err(problem(idx, " has non-string errorPolicy"))
            }
        },
    }
}

fn or_text(text: Option<String>, other: &str) -> (r: String)
    ensures
        r@ == text_or(opt_view(text), other@),
{
    match text {
        Some(t) => t,
        None => other.to_string(),
    }
}

fn parse_account(account: &AccountObject, idx: usize) -> (r: Result<DiscoveryDescriptor, String>)
    ensures
        match (r, read_account(*account, idx as int)) {
            (Ok(found), Ok(expected)) => found@ == expected,
            (Err(message), Err(expected)) => message@ == expected,
            _ => false,
        },
{
    let probe_id = match parse_id(&account.id, idx) {
        Ok(value) => value,
        Err(message) => {
            return Err(message);
        },
    };
    let name = match parse_optional(&account.name, idx, "name") {
        Ok(value) => value,
        Err(message) => {
            return Err(message);
        },
    };
    let origin = match parse_optional(&account.origin, idx, "origin") {
        Ok(value) => value,
        Err(message) => {
            return Err(message);
        },
    };
    let is_active = match parse_active(&account.is_active, idx) {
        Ok(value) => value,
        Err(message) => {
            return Err(message);
        },
    };
    let namespace = match parse_optional(&account.origin_namespace, idx, "originNamespace") {
        Ok(value) => value,
        Err(message) => {
            return Err(message);
        },
    };
    let subject = match parse_optional(&account.stable_subject_key, idx, "stableSubjectKey") {
        Ok(value) => value,
        Err(message) => {
            return Err(message);
        },
    };
    let source = match parse_optional(&account.source_ref, idx, "sourceRef") {
        Ok(value) => value,
        Err(message) => {
            return Err(message);
        },
    };
    match parse_policy(&account.error_policy, idx) {
        Err(message) => Err(message),
        Ok(error_policy) => Ok(
            DiscoveryDescriptor {
                probe_id,
                origin: or_text(origin, "native"),
                is_active,
                name,
                origin_namespace: or_text(namespace, "default"),
                stable_subject_key: subject,
                source_ref: source,
                error_policy,
            },
        ),
    }
}

/// The accounts that a script returned, or the first thing that is wrong with them.
pub fn parse_discovery_accounts(elements: &Vec<AccountElement>) -> (r: Result<
    Vec<DiscoveryDescriptor>,
    String,
>)
    ensures
        match (r, read_accounts(elements@)) {
            (Ok(found), Ok(expected)) => descriptor_views(found@) == expected,
            (Err(message), Err(expected)) => message@ == expected,
            _ => false,
        },
{
    if elements.len() > MAX_ACCOUNTS {
        let mut message = "discoverAccounts returned ".to_string();
        let count = decimal_text(elements.len() as u128);
        message.append(count.as_str());
        message.append(" accounts (max ");
        let limit = decimal_text(MAX_ACCOUNTS as u128);
        message.append(limit.as_str());
        message.append(")");
        return Err(message);
    }
    let mut out: Vec<DiscoveryDescriptor> = Vec::new();
    let mut i: usize = 0;
    assert(elements@.take(0) =~= Seq::<AccountElement>::empty());
    assert(descriptor_views(out@) =~= Seq::<DescriptorView>::empty());
    while i < elements.len()
        invariant
            i <= elements@.len(),
            elements@.len() <= MAX_ACCOUNTS,
            read_elements(elements@.take(i as int)) == Ok::<Seq<DescriptorView>, Seq<char>>(
                descriptor_views(out@),
            ),
        decreases elements@.len() - i,
    {
        let ghost next = elements@.take(i + 1);
        assert(next.drop_last() =~= elements@.take(i as int));
        assert(next.last() == elements@[i as int]);
        let found = match &elements[i] {
            AccountElement::Threw => {
                let mut message = "discoverAccounts: invalid element at index ".to_string();
                let number = decimal_text(i as u128);
                message.append(number.as_str());
                Err(message)
            },
            AccountElement::NotObject => Err(problem(i, " must be an object")),
            AccountElement::Object(account) => parse_account(account, i),
        };
        match found {
            Err(message) => {
                proof {
                    assert(read_elements(next) == Err::<Seq<DescriptorView>, Seq<char>>(message@));
                    lemma_first_complaint_stays(elements@, i + 1);
                }
                return Err(message);
            },
            Ok(account) => {
                let ghost before = out@;
                out.push(account);
                assert(descriptor_views(out@) =~= descriptor_views(before).push(account@));
            },
        }
        i = i + 1;
    }
    assert(elements@.take(elements@.len() as int) =~= elements@);
    Ok(out)
}

pub(crate) proof fn lemma_first_complaint_stays(elements: Seq<AccountElement>, n: int)
    requires
        0 <= n <= elements.len(),
        read_elements(elements.take(n)) is Err,
    ensures
        read_elements(elements) == read_elements(elements.take(n)),
    decreases elements.len() - n,
{
    if n < elements.len() {
        assert(elements.take(n + 1).drop_last() =~= elements.take(n));
        lemma_first_complaint_stays(elements, n + 1);
    } else {
        assert(elements.take(n) =~= elements);
    }
}

/// No account is lost or made up: an accepted list has at most the largest number of
/// accounts, one for each element, and each with an identity that is not blank.
pub proof fn law_accepted_accounts_match_the_list(elements: Seq<AccountElement>)
    ensures
        read_accounts(elements) matches Ok(list) ==> list.len() == elements.len() && list.len()
            <= MAX_ACCOUNTS && forall|i: int|
            0 <= i < list.len() ==> !is_blank((#[trigger] list[i]).probe_id),
{
    lemma_elements_match(elements);
}

proof fn lemma_elements_match(elements: Seq<AccountElement>)
    ensures
        read_elements(elements) matches Ok(list) ==> list.len() == elements.len() && forall|i: int|
            0 <= i < list.len() ==> !is_blank((#[trigger] list[i]).probe_id),
    decreases elements.len(),
{
    if elements.len() > 0 {
        lemma_elements_match(elements.drop_last());
        if read_elements(elements) is Ok {
            let before = read_elements(elements.drop_last())->Ok_0;
            let list = read_elements(elements)->Ok_0;
            assert forall|i: int| 0 <= i < list.len() implies !is_blank(
                (#[trigger] list[i]).probe_id,
            ) by {
                if i < before.len() {
                    assert(list[i] == before[i]);
                }
            }
        }
    }
}

/// The digit for a number below sixteen.
pub open spec fn hex_digit(n: int) -> char {
    if n < 10 {
        (n + 48) as char
    } else {
        (n + 87) as char
    }
}

/// Bytes as digits, two for each.
pub open spec fn hex_text(bytes: Seq<u8>) -> Seq<char>
    decreases bytes.len(),
{
    if bytes.len() == 0 {
        Seq::empty()
    } else {
        hex_text(bytes.drop_last()).push(hex_digit(bytes.last() as int / 16)).push(
            hex_digit(bytes.last() as int % 16),
        )
    }
}

fn hex_char(n: u8) -> (r: char)
    requires
        n < 16,
    ensures
        r == hex_digit(n as int),
{
    if n < 10 {
        (n + 48u8) as char
    } else {
        (n + 87u8) as char
    }
}

/// What the digest of an account is made of.
pub open spec fn account_preimage(provider_id: Seq<char>, account: DescriptorView) -> Seq<char> {
    "acc_v1|"@ + provider_id + "|"@ + account.origin + "|"@ + account.origin_namespace + "|"@
        + text_or(account.stable_subject_key, account.probe_id) + "|"@ + text_or(
        account.source_ref,
        Seq::empty(),
    )
}

/// The identity that a digest stands for: its first twelve bytes as digits.
pub open spec fn digest_id(digest: Seq<u8>) -> Seq<char> {
    "acc_v1_"@ + hex_text(digest.take(12))
}

/// The identity of an account among all accounts of a provider.
pub open spec fn canonical_id(provider_id: Seq<char>, account: DescriptorView) -> Seq<char> {
    if account.probe_id == "default"@ && account.origin == "native"@ {
        "default"@
    } else {
        digest_id(sha256_digest(encode_utf8(account_preimage(provider_id, account))))
    }
}

/// The identity that a digest stands for.
pub fn account_id_from_digest(digest: &Vec<u8>) -> (r: String)
    requires
        digest@.len() >= 12,
    ensures
        r@ == digest_id(digest@),
{
    let mut out = "acc_v1_".to_string();
    let ghost head = out@;
    let mut i: usize = 0;
    assert(hex_text(digest@.take(0)) =~= Seq::<char>::empty());
    assert(out@ =~= head + hex_text(digest@.take(0)));
    while i < 12
        invariant
            i <= 12 <= digest@.len(),
            out@ == head + hex_text(digest@.take(i as int)),
        decreases 12 - i,
    {
        let ghost next = digest@.take(i + 1);
        assert(next.drop_last() =~= digest@.take(i as int));
        assert(next.last() == digest@[i as int]);
        out.push(hex_char(digest[i] / 16));
        out.push(hex_char(digest[i] % 16));
        assert(out@ =~= head + hex_text(next));
        i = i + 1;
    }
    out
}

/// The identity of an account among all accounts of a provider.
pub fn canonical_discovery_account_id(
    provider_id: &str,
    descriptor: &DiscoveryDescriptor,
) -> (r: String)
    ensures
        r@ == canonical_id(provider_id@, descriptor@),
{
    if same(descriptor.probe_id.as_str(), "default") && same(descriptor.origin.as_str(), "native") {
        return "default".to_string();
    }
    let subject = match &descriptor.stable_subject_key {
        Some(key) => key.clone(),
        None => descriptor.probe_id.clone(),
    };
    let source = match &descriptor.source_ref {
        Some(source) => source.clone(),
        None => {
            let empty = String::new();
            assert(empty@ =~= Seq::<char>::empty());
            empty
        },
    };
    let mut preimage = "acc_v1|".to_string();
    preimage.append(provider_id);
    preimage.append("|");
    preimage.append(descriptor.origin.as_str());
    preimage.append("|");
    preimage.append(descriptor.origin_namespace.as_str());
    preimage.append("|");
    preimage.append(subject.as_str());
    preimage.append("|");
    preimage.append(source.as_str());
    let digest = sha256(preimage.as_str().as_bytes());
    account_id_from_digest(&digest)
}

/// True if another account has the same identity within the plugin.
pub open spec fn is_shared(accounts: Seq<DescriptorView>, i: int) -> bool {
    exists|j: int|
        0 <= j < accounts.len() && j != i && (#[trigger] accounts[j]).probe_id
            == accounts[i].probe_id
}

/// The identity under which an account is reported: its own within the plugin, or the
/// canonical one where that is shared.
pub open spec fn report_id(provider_id: Seq<char>, accounts: Seq<DescriptorView>, i: int) -> Seq<
    char,
> {
    if is_shared(accounts, i) {
        canonical_id(provider_id, accounts[i])
    } else {
        accounts[i].probe_id
    }
}

/// The identities under which accounts are reported.
pub open spec fn report_ids(provider_id: Seq<char>, accounts: Seq<DescriptorView>) -> Seq<
    Seq<char>,
> {
    Seq::new(accounts.len(), |i: int| report_id(provider_id, accounts, i))
}

/// The first text that occurs a second time.
pub open spec fn first_repeat(ids: Seq<Seq<char>>) -> Option<Seq<char>>
    decreases ids.len(),
{
    if ids.len() == 0 {
        None
    } else {
        match first_repeat(ids.drop_last()) {
            Some(id) => Some(id),
            None => if ids.drop_last().contains(ids.last()) {
                Some(ids.last())
            } else {
                None
            },
        }
    }
}

/// The account as it is reported.
pub open spec fn reported_account(
    provider_id: Seq<char>,
    accounts: Seq<DescriptorView>,
    i: int,
) -> AccountView {
    AccountView {
        id: report_id(provider_id, accounts, i),
        origin: accounts[i].origin,
        is_active: accounts[i].is_active,
        name: accounts[i].name,
    }
}

/// The account as the plugin is asked for it.
pub open spec fn probed_account(account: DescriptorView) -> AccountView {
    AccountView {
        id: account.probe_id,
        origin: account.origin,
        is_active: account.is_active,
        name: None,
    }
}

/// An account as it is reported and as the plugin is asked for it.
#[derive(Debug)]
pub struct AccountPlan {
    pub output: AccountRef,
    pub probe: AccountRef,
    pub error_policy: ErrorPolicy,
}

fn shares_id(accounts: &Vec<DiscoveryDescriptor>, i: usize) -> (r: bool)
    requires
        i < accounts@.len(),
    ensures
        r == is_shared(descriptor_views(accounts@), i as int),
{
    let ghost all = descriptor_views(accounts@);
    let mut j: usize = 0;
    while j < accounts.len()
        invariant
            j <= accounts@.len(),
            i < accounts@.len(),
            all == descriptor_views(accounts@),
            forall|k: int|
                0 <= k < j && k != i ==> (#[trigger] all[k]).probe_id != all[i as int].probe_id,
        decreases accounts@.len() - j,
    {
        assert(all[j as int] == accounts@[j as int]@);
        assert(all[i as int] == accounts@[i as int]@);
        if j != i && same(accounts[j].probe_id.as_str(), accounts[i].probe_id.as_str()) {
            return true;
        }
        j = j + 1;
    }
    false
}

/// How each account is reported and asked for, or the complaint that two would be
/// reported under one identity.
pub fn plan_accounts(provider_id: &str, accounts: &Vec<DiscoveryDescriptor>) -> (r: Result<
    Vec<AccountPlan>,
    String,
>)
    ensures
        ({
            let all = descriptor_views(accounts@);
            let ids = report_ids(provider_id@, all);
            &&& r is Ok <==> first_repeat(ids) is None
            &&& r matches Ok(plans) ==> plans@.len() == all.len() && forall|i: int|
                0 <= i < all.len() ==> {
                    &&& (#[trigger] plans@[i]).output@ == reported_account(provider_id@, all, i)
                    &&& plans@[i].probe@ == probed_account(all[i])
                    &&& plans@[i].error_policy == all[i].error_policy
                }
            &&& r matches Err(message) ==> message@
                == "discoverAccounts produced duplicate output account id '"@
                + first_repeat(ids).unwrap() + "'"@
        }),
{
    let ghost all = descriptor_views(accounts@);
    let ghost ids = report_ids(provider_id@, all);
    let mut seen: Vec<String> = Vec::new();
    let mut plans: Vec<AccountPlan> = Vec::new();
    let mut i: usize = 0;
    assert(ids.take(0) =~= Seq::<Seq<char>>::empty());
    assert(views(seen@) =~= ids.take(0));
    while i < accounts.len()
        invariant
            i <= accounts@.len(),
            all == descriptor_views(accounts@),
            ids == report_ids(provider_id@, all),
            views(seen@) == ids.take(i as int),
            first_repeat(ids.take(i as int)) is None,
            plans@.len() == i,
            forall|k: int|
                0 <= k < i ==> {
                    &&& (#[trigger] plans@[k]).output@ == reported_account(provider_id@, all, k)
                    &&& plans@[k].probe@ == probed_account(all[k])
                    &&& plans@[k].error_policy == all[k].error_policy
                },
        decreases accounts@.len() - i,
    {
        let ghost next = ids.take(i + 1);
        assert(next.drop_last() =~= ids.take(i as int));
        assert(all[i as int] == accounts@[i as int]@);
        let account = &accounts[i];
        let id = if shares_id(accounts, i) {
            canonical_discovery_account_id(provider_id, account)
        } else {
            account.probe_id.clone()
        };
        assert(id@ == ids[i as int]);
        if crate::text::contains_text(&seen, id.as_str()) {
            let mut message = "discoverAccounts produced duplicate output account id '".to_string();
            message.append(id.as_str());
            message.append("'");
            proof {
                assert(first_repeat(next) == Some(id@));
                lemma_first_repeat_stays(ids, i + 1);
            }
            return Err(message);
        }
        let ghost before = seen@;
        seen.push(id.clone());
        assert(views(seen@) =~= views(before).push(id@));
        assert(next =~= ids.take(i as int).push(id@));
        plans.push(
            AccountPlan {
                output: AccountRef {
                    id,
                    origin: account.origin.clone(),
                    is_active: account.is_active,
                    name: clone_opt(&account.name),
                },
                probe: AccountRef {
                    id: account.probe_id.clone(),
                    origin: account.origin.clone(),
                    is_active: account.is_active,
                    name: None,
                },
                error_policy: account.error_policy,
            },
        );
        i = i + 1;
    }
    assert(ids.take(ids.len() as int) =~= ids);
    Ok(plans)
}

proof fn lemma_first_repeat_stays(ids: Seq<Seq<char>>, n: int)
    requires
        0 <= n <= ids.len(),
        first_repeat(ids.take(n)) is Some,
    ensures
        first_repeat(ids) == first_repeat(ids.take(n)),
    decreases ids.len() - n,
{
    if n < ids.len() {
        assert(ids.take(n + 1).drop_last() =~= ids.take(n));
        lemma_first_repeat_stays(ids, n + 1);
    } else {
        assert(ids.take(n) =~= ids);
    }
}

/// Where no text is found to repeat, all are different.
pub proof fn law_no_repeat_means_distinct(ids: Seq<Seq<char>>)
    ensures
        first_repeat(ids) is None <==> ids.no_duplicates(),
    decreases ids.len(),
{
    if ids.len() > 0 {
        let init = ids.drop_last();
        law_no_repeat_means_distinct(init);
        if first_repeat(ids) is None {
            assert forall|i: int, j: int| 0 <= i < ids.len() && 0 <= j < ids.len() && i
                != j implies ids[i] != ids[j] by {
                if i < init.len() && j < init.len() {
                    assert(init[i] != init[j]);
                } else if i < init.len() {
                    assert(init[i] == ids[i]);
                    assert(init.contains(ids[i]));
                } else {
                    assert(init[j] == ids[j]);
                    assert(init.contains(ids[j]));
                }
            }
        }
        if ids.no_duplicates() {
            assert forall|i: int, j: int| 0 <= i < init.len() && 0 <= j < init.len() && i
                != j implies init[i] != init[j] by {
                assert(ids[i] != ids[j]);
            }
            if init.contains(ids.last()) {
                let k = choose|k: int| 0 <= k < init.len() && init[k] == ids.last();
                assert(ids[k] == ids[ids.len() - 1]);
            }
        }
    }
}

/// Accounts whose identities within the plugin are all different are reported under just
/// these, and are never refused.
pub proof fn law_distinct_ids_are_kept(provider_id: Seq<char>, accounts: Seq<DescriptorView>)
    requires
        forall|i: int, j: int|
            0 <= i < j < accounts.len() ==> (#[trigger] accounts[i]).probe_id != (
            #[trigger] accounts[j]).probe_id,
    ensures
        report_ids(provider_id, accounts) == accounts.map_values(|a: DescriptorView| a.probe_id),
        first_repeat(report_ids(provider_id, accounts)) is None,
{
    let ids = report_ids(provider_id, accounts);
    assert forall|i: int| 0 <= i < accounts.len() implies !is_shared(accounts, i) by {
        if is_shared(accounts, i) {
            let j = choose|j: int|
                0 <= j < accounts.len() && j != i && (#[trigger] accounts[j]).probe_id
                    == accounts[i].probe_id;
            if j < i {
                assert(accounts[j].probe_id != accounts[i].probe_id);
            } else {
                assert(accounts[i].probe_id != accounts[j].probe_id);
            }
        }
    }
    assert(ids =~= accounts.map_values(|a: DescriptorView| a.probe_id));
    assert(ids.no_duplicates()) by {
        assert forall|i: int, j: int| 0 <= i < ids.len() && 0 <= j < ids.len() && i
            != j implies ids[i] != ids[j] by {
            if i < j {
                assert(accounts[i].probe_id != accounts[j].probe_id);
            } else {
                assert(accounts[j].probe_id != accounts[i].probe_id);
            }
        }
    }
    law_no_repeat_means_distinct(ids);
}

} // verus!
