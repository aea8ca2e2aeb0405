//! Listing the AWS accounts and roles assigned to a signed-in user, page by
//! page, with a bound on the number of pages.
use vstd::prelude::*;
use crate::error::{AppError, invalid, is_invalid};
use crate::text::{all_digits, chars_of, is_digit};

verus! {

broadcast use vstd::string::group_string_axioms;

/// The most pages of accounts or roles read for one listing.
pub const MAX_PAGES: usize = 100;

/// The page size asked of AWS.
pub const PAGE_SIZE: i32 = 100;

/// The name shown for an account that AWS lists without one.
pub const UNNAMED_ACCOUNT: &'static str = "AWS account";

/// Refusal when the accounts do not fit in `MAX_PAGES` pages.
pub const TOO_MANY_ACCOUNTS: &'static str = "Too many AWS accounts to list. Ask your administrator to reduce assignments.";

/// Refusal when the roles do not fit in `MAX_PAGES` pages.
pub const TOO_MANY_ROLES: &'static str = "Too many AWS roles to list. Ask your administrator to reduce assignments.";

/// Refusal of an account id that is not twelve digits.
pub const INVALID_ACCOUNT: &'static str = "Select a valid AWS account.";

/// An AWS account the user can sign in to.
pub struct Account {
    pub account_id: String,
    pub account_name: String,
    pub email_address: Option<String>,
}

/// A role the user can take in an account.
pub struct Role {
    pub account_id: String,
    pub role_name: String,
}

/// An account as AWS lists it.
pub struct AccountSummary {
    pub account_id: Option<String>,
    pub account_name: Option<String>,
    pub email_address: Option<String>,
}

/// What a listing does next: fetch the page with this token, or stop.
#[derive(Debug)]
pub enum ListingStep {
    Fetch(String),
    Finished,
}

/// The view of an account: id, name and e-mail address.
pub open spec fn account_view(a: Account) -> (Seq<char>, Seq<char>, Option<Seq<char>>) {
    (
        a.account_id@,
        a.account_name@,
        match a.email_address {
            Some(e) => Some(e@),
            None => None,
        },
    )
}

/// The view of a role: account id and role name.
pub open spec fn role_view(r: Role) -> (Seq<char>, Seq<char>) {
    (r.account_id@, r.role_name@)
}

/// The accounts that a listed page contributes: those with an id, named
/// `UNNAMED_ACCOUNT` when AWS gave no name.
pub open spec fn page_accounts(items: Seq<AccountSummary>) -> Seq<(Seq<char>, Seq<char>, Option<Seq<char>>)>
    decreases items.len(),
{
    if items.len() == 0 {
        seq![]
    } else {
        let rest = page_accounts(items.drop_last());
        let a = items.last();
        match a.account_id {
            Some(id) => rest.push(
                (
                    id@,
                    match a.account_name {
                        Some(n) => n@,
                        None => UNNAMED_ACCOUNT@,
                    },
                    match a.email_address {
                        Some(e) => Some(e@),
                        None => None,
                    },
                ),
            ),
            None => rest,
        }
    }
}

/// The roles that a listed page contributes in `account_id`: those with a name.
pub open spec fn page_roles(account_id: Seq<char>, names: Seq<Option<String>>) -> Seq<(Seq<char>, Seq<char>)>
    decreases names.len(),
{
    if names.len() == 0 {
        seq![]
    } else {
        let rest = page_roles(account_id, names.drop_last());
        match names.last() {
            Some(n) => rest.push((account_id, n@)),
            None => rest,
        }
    }
}

/// An AWS account id: twelve ASCII digits.
pub open spec fn account_id_valid(id: Seq<char>) -> bool {
    id.len() == 12 && all_digits(id)
}

/// Whether `id` is an AWS account id.
pub fn is_valid_account_id(id: &str) -> (r: bool)
    ensures
        r == account_id_valid(id@),
{
    let chars = chars_of(id);
    if chars.len() != 12 {
        return false;
    }
    let mut i: usize = 0;
    while i < chars.len()
        invariant
            i <= chars.len(),
            chars@ == id@,
            forall|j: int| 0 <= j < i ==> is_digit(#[trigger] chars@[j]),
        decreases chars.len() - i,
    {
        if !('0' <= chars[i] && chars[i] <= '9') {
            assert(!is_digit(chars@[i as int]));
            return false;
        }
        i = i + 1;
    }
    true
}

fn copy_opt(o: &Option<String>) -> (r: Option<String>)
    ensures
        r == *o,
{
    match o {
        Some(s) => Some(s.clone()),
        None => None,
    }
}

/// The views of accounts, in order.
pub open spec fn account_views(accounts: Seq<Account>) -> Seq<(Seq<char>, Seq<char>, Option<Seq<char>>)> {
    accounts.map_values(|a: Account| account_view(a))
}

/// The views of roles, in order.
pub open spec fn role_views(roles: Seq<Role>) -> Seq<(Seq<char>, Seq<char>)> {
    roles.map_values(|r: Role| role_view(r))
}

/// The accounts that the pages contribute, page after page.
pub open spec fn pages_accounts(pages: Seq<Seq<AccountSummary>>) -> Seq<(Seq<char>, Seq<char>, Option<Seq<char>>)>
    decreases pages.len(),
{
    if pages.len() == 0 {
        seq![]
    } else {
        pages_accounts(pages.drop_last()) + page_accounts(pages.last())
    }
}

/// The roles in `account_id` that the pages contribute, page after page.
pub open spec fn pages_roles(account_id: Seq<char>, pages: Seq<Seq<Option<String>>>) -> Seq<(Seq<char>, Seq<char>)>
    decreases pages.len(),
{
    if pages.len() == 0 {
        seq![]
    } else {
        pages_roles(account_id, pages.drop_last()) + page_roles(account_id, pages.last())
    }
}

/// What the answer to a page is: stop when AWS gave no next token, fetch the
/// next page while fewer than `MAX_PAGES` pages were read, and else refuse with
/// `too_many`.
pub open spec fn listing_answer(pages: usize, next_token: Option<String>, r: Result<ListingStep, AppError>, too_many: Seq<char>) -> bool {
    match next_token {
        None => r matches Ok(ListingStep::Finished),
        Some(t) => if pages < MAX_PAGES {
            r == Ok::<ListingStep, AppError>(ListingStep::Fetch(t))
        } else {
            r matches Err(e) && is_invalid(e, too_many)
        },
    }
}

/// One step of an account listing: `after` is `before` with one more page
/// read and the page's accounts added, and `r` is the answer to the page.
pub open spec fn account_step(
    before: AccountListing,
    items: Seq<AccountSummary>,
    next_token: Option<String>,
    after: AccountListing,
    r: Result<ListingStep, AppError>,
) -> bool {
    &&& before.pages < MAX_PAGES
    &&& after.pages == before.pages + 1
    &&& account_views(after.found@) == account_views(before.found@) + page_accounts(items)
    &&& listing_answer(after.pages, next_token, r, TOO_MANY_ACCOUNTS@)
}

/// One step of a role listing, as `account_step`; the account stays the same.
pub open spec fn role_step(
    before: RoleListing,
    names: Seq<Option<String>>,
    next_token: Option<String>,
    after: RoleListing,
    r: Result<ListingStep, AppError>,
) -> bool {
    &&& before.pages < MAX_PAGES
    &&& after.pages == before.pages + 1
    &&& after.account_id == before.account_id
    &&& role_views(after.found@) == role_views(before.found@) + page_roles(before.account_id@, names)
    &&& listing_answer(after.pages, next_token, r, TOO_MANY_ROLES@)
}

/// The accounts read so far and the number of pages read.
pub struct AccountListing {
    pub pages: usize,
    pub found: Vec<Account>,
}

impl AccountListing {
    /// A listing that has read nothing; the first page is fetched without a token.
    pub fn new() -> (l: Self)
        ensures
            l.pages == 0,
            l.found@.len() == 0,
    {
        AccountListing { pages: 0, found: Vec::new() }
    }

    /// Takes in one page: its accounts are added, then the listing stops when
    /// AWS gave no next token, fetches the next page while fewer than
    /// `MAX_PAGES` pages were read, and fails otherwise.
    pub fn accept(&mut self, items: &Vec<AccountSummary>, next_token: Option<String>) -> (r: Result<ListingStep, AppError>)
        requires
            old(self).pages < MAX_PAGES,
        ensures
            account_step(*old(self), items@, next_token, *final(self), r),
    {
        let mut i: usize = 0;
        let ghost start = self.found@.map_values(|a: Account| account_view(a));
        assert(items@.take(0) =~= Seq::<AccountSummary>::empty());
        while i < items.len()
            invariant
                i <= items.len(),
                self.pages == old(self).pages,
                start == old(self).found@.map_values(|a: Account| account_view(a)),
                self.found@.map_values(|a: Account| account_view(a)) == start + page_accounts(
                    items@.take(i as int),
                ),
            decreases items.len() - i,
        {
            assert(items@.take(i + 1).drop_last() == items@.take(i as int));
            assert(items@.take(i + 1).last() == items@[i as int]);
            let a = &items[i];
            match &a.account_id {
                Some(id) => {
                    let name = match &a.account_name {
                        Some(n) => n.clone(),
                        None => UNNAMED_ACCOUNT.to_owned(),
                    };
                    let acct = Account { account_id: id.clone(), account_name: name, email_address: copy_opt(&a.email_address) };
                    let ghost before = self.found@;
                    let ghost view = account_view(acct);
                    self.found.push(acct);
                    assert(self.found@.map_values(|a: Account| account_view(a)) =~= before.map_values(
                        |a: Account| account_view(a),
                    ).push(view));
                    assert(self.found@.map_values(|a: Account| account_view(a)) =~= start + page_accounts(
                        items@.take(i + 1),
                    ));
                },
                None => {},
            }
            i = i + 1;
        }
        assert(items@.take(items.len() as int) == items@);
        self.pages = self.pages + 1;
        match next_token {
            None => Ok(ListingStep::Finished),
            Some(t) => {
                if self.pages < MAX_PAGES {
                    Ok(ListingStep::Fetch(t))
                } else {
                    Err(invalid(TOO_MANY_ACCOUNTS))
                }
            },
        }
    }
}

/// The roles read so far in one account and the number of pages read.
pub struct RoleListing {
    pub account_id: String,
    pub pages: usize,
    pub found: Vec<Role>,
}

impl RoleListing {
    /// A listing of the roles in `account_id`, which must be an AWS account id.
    pub fn new(account_id: &str) -> (r: Result<Self, AppError>)
        ensures
            account_id_valid(account_id@) ==> (r matches Ok(l) && l.account_id@ == account_id@
                && l.pages == 0 && l.found@.len() == 0),
            !account_id_valid(account_id@) ==> (r matches Err(e) && is_invalid(e, INVALID_ACCOUNT@)),
    {
        if !is_valid_account_id(account_id) {
            return Err(invalid(INVALID_ACCOUNT));
        }
        Ok(RoleListing { account_id: account_id.to_owned(), pages: 0, found: Vec::new() })
    }

    /// Takes in one page of role names, as `AccountListing::accept` does.
    pub fn accept(&mut self, names: &Vec<Option<String>>, next_token: Option<String>) -> (r: Result<ListingStep, AppError>)
        requires
            old(self).pages < MAX_PAGES,
        ensures
            role_step(*old(self), names@, next_token, *final(self), r),
    {
        let mut i: usize = 0;
        let ghost start = self.found@.map_values(|r: Role| role_view(r));
        assert(names@.take(0) =~= Seq::<Option<String>>::empty());
        while i < names.len()
            invariant
                i <= names.len(),
                self.pages == old(self).pages,
                self.account_id == old(self).account_id,
                start == old(self).found@.map_values(|r: Role| role_view(r)),
                self.found@.map_values(|r: Role| role_view(r)) == start + page_roles(
                    self.account_id@,
                    names@.take(i as int),
                ),
            decreases names.len() - i,
        {
            assert(names@.take(i + 1).drop_last() == names@.take(i as int));
            assert(names@.take(i + 1).last() == names@[i as int]);
            match &names[i] {
                Some(n) => {
                    let role = Role { account_id: self.account_id.clone(), role_name: n.clone() };
                    let ghost before = self.found@;
                    let ghost view = role_view(role);
                    self.found.push(role);
                    assert(self.found@.map_values(|r: Role| role_view(r)) =~= before.map_values(
                        |r: Role| role_view(r),
                    ).push(view));
                    assert(self.found@.map_values(|r: Role| role_view(r)) =~= start + page_roles(
                        self.account_id@,
                        names@.take(i + 1),
                    ));
                },
                None => {},
            }
            i = i + 1;
        }
        assert(names@.take(names.len() as int) == names@);
        self.pages = self.pages + 1;
        match next_token {
            None => Ok(ListingStep::Finished),
            Some(t) => {
                if self.pages < MAX_PAGES {
                    Ok(ListingStep::Fetch(t))
                } else {
                    Err(invalid(TOO_MANY_ROLES))
                }
            },
        }
    }
}

/// The listing before page `k` of a run of account-listing steps that began
/// with nothing read.
proof fn lemma_account_prefix(
    states: Seq<AccountListing>,
    pages: Seq<Seq<AccountSummary>>,
    tokens: Seq<Option<String>>,
    results: Seq<Result<ListingStep, AppError>>,
    k: int,
)
    requires
        states.len() == pages.len() + 1,
        tokens.len() == pages.len(),
        results.len() == pages.len(),
        states[0].pages == 0,
        states[0].found@.len() == 0,
        forall|i: int| 0 <= i < pages.len() ==> account_step(states[i], #[trigger] pages[i], tokens[i], states[i + 1], results[i]),
        0 <= k <= pages.len(),
    ensures
        states[k].pages == k,
        account_views(states[k].found@) == pages_accounts(pages.take(k)),
    decreases k,
{
    if k > 0 {
        lemma_account_prefix(states, pages, tokens, results, k - 1);
        assert(account_step(states[k - 1], pages[k - 1], tokens[k - 1], states[k], results[k - 1]));
        assert(pages.take(k).drop_last() == pages.take(k - 1));
        assert(pages.take(k).last() == pages[k - 1]);
    } else {
        assert(account_views(states[0].found@) =~= Seq::<(Seq<char>, Seq<char>, Option<Seq<char>>)>::empty());
    }
}

/// Law: a listing that starts with nothing read takes in at most `MAX_PAGES`
/// pages, and what it found is the accounts of its pages, in order.
/// `states[i]` is the listing before page `i` and `results[i]` the answer to it.
pub proof fn lemma_account_listing_run(
    states: Seq<AccountListing>,
    pages: Seq<Seq<AccountSummary>>,
    tokens: Seq<Option<String>>,
    results: Seq<Result<ListingStep, AppError>>,
)
    requires
        states.len() == pages.len() + 1,
        tokens.len() == pages.len(),
        results.len() == pages.len(),
        states[0].pages == 0,
        states[0].found@.len() == 0,
        forall|i: int| 0 <= i < pages.len() ==> account_step(states[i], #[trigger] pages[i], tokens[i], states[i + 1], results[i]),
    ensures
        pages.len() <= MAX_PAGES,
        states.last().pages == pages.len(),
        account_views(states.last().found@) == pages_accounts(pages),
{
    let n = pages.len() as int;
    if n > 0 {
        lemma_account_prefix(states, pages, tokens, results, n - 1);
        assert(account_step(states[n - 1], pages[n - 1], tokens[n - 1], states[n], results[n - 1]));
    }
    lemma_account_prefix(states, pages, tokens, results, n);
    assert(pages.take(n) == pages);
}

/// The listing before page `k` of a run of role-listing steps that began with
/// nothing read.
proof fn lemma_role_prefix(
    states: Seq<RoleListing>,
    pages: Seq<Seq<Option<String>>>,
    tokens: Seq<Option<String>>,
    results: Seq<Result<ListingStep, AppError>>,
    k: int,
)
    requires
        states.len() == pages.len() + 1,
        tokens.len() == pages.len(),
        results.len() == pages.len(),
        states[0].pages == 0,
        states[0].found@.len() == 0,
        forall|i: int| 0 <= i < pages.len() ==> role_step(states[i], #[trigger] pages[i], tokens[i], states[i + 1], results[i]),
        0 <= k <= pages.len(),
    ensures
        states[k].pages == k,
        states[k].account_id == states[0].account_id,
        role_views(states[k].found@) == pages_roles(states[0].account_id@, pages.take(k)),
    decreases k,
{
    if k > 0 {
        lemma_role_prefix(states, pages, tokens, results, k - 1);
        assert(role_step(states[k - 1], pages[k - 1], tokens[k - 1], states[k], results[k - 1]));
        assert(pages.take(k).drop_last() == pages.take(k - 1));
        assert(pages.take(k).last() == pages[k - 1]);
    } else {
        assert(role_views(states[0].found@) =~= Seq::<(Seq<char>, Seq<char>)>::empty());
    }
}

/// Law: a role listing that starts with nothing read takes in at most
/// `MAX_PAGES` pages, and what it found is the roles of its pages, in order,
/// all in the listing's account.
pub proof fn lemma_role_listing_run(
    states: Seq<RoleListing>,
    pages: Seq<Seq<Option<String>>>,
    tokens: Seq<Option<String>>,
    results: Seq<Result<ListingStep, AppError>>,
)
    requires
        states.len() == pages.len() + 1,
        tokens.len() == pages.len(),
        results.len() == pages.len(),
        states[0].pages == 0,
        states[0].found@.len() == 0,
        forall|i: int| 0 <= i < pages.len() ==> role_step(states[i], #[trigger] pages[i], tokens[i], states[i + 1], results[i]),
    ensures
        pages.len() <= MAX_PAGES,
        states.last().pages == pages.len(),
        states.last().account_id == states[0].account_id,
        role_views(states.last().found@) == pages_roles(states[0].account_id@, pages),
{
    let n = pages.len() as int;
    if n > 0 {
        lemma_role_prefix(states, pages, tokens, results, n - 1);
        assert(role_step(states[n - 1], pages[n - 1], tokens[n - 1], states[n], results[n - 1]));
    }
    lemma_role_prefix(states, pages, tokens, results, n);
    assert(pages.take(n) == pages);
}

/// Whether a role named `role_name` is among `roles`.
pub fn role_assigned(roles: &Vec<Role>, role_name: &str) -> (r: bool)
    ensures
        r == exists|i: int| 0 <= i < roles@.len() && #[trigger] roles@[i].role_name@ == role_name@,
{
    let mut i: usize = 0;
    while i < roles.len()
        invariant
            i <= roles.len(),
            forall|j: int| 0 <= j < i ==> #[trigger] roles@[j].role_name@ != role_name@,
        decreases roles.len() - i,
    {
        if crate::text::str_eq(roles[i].role_name.as_str(), role_name) {
            return true;
        }
        i = i + 1;
    }
    false
}

} // verus!
