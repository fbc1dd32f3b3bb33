use vstd::prelude::*;
use crate::error::BankError;
use crate::money::Money;
use crate::table::LoginTable;
use crate::types::TransactionEndPoint;

verus! {

/// A client's request to be paid by an enterprise's salary project.
pub struct SalaryClientRequest {
    pub enterprise_name: String,
    pub client_login: String,
    pub account: TransactionEndPoint,
}

impl SalaryClientRequest {
    /// A copy equal to `self`.
    pub fn duplicate(&self) -> (r: SalaryClientRequest)
        ensures
            r == *self,
    {
        SalaryClientRequest {
            enterprise_name: self.enterprise_name.clone(),
            client_login: self.client_login.clone(),
            account: self.account,
        }
    }
}

#[derive(Clone, Copy, Debug, PartialEq, Eq, Structural)]
pub struct SalaryAcceptRequest {
    pub idx: usize,
    pub accept: bool,
    pub salary: Money,
}

#[derive(Clone, Copy, Debug, PartialEq, Eq, Structural)]
pub struct SalaryInitProjRequest {
    pub account: TransactionEndPoint,
}

pub struct SalaryAcceptProjRequest {
    pub enterprise: String,
}

pub struct Employee {
    pub login: String,
    pub account: TransactionEndPoint,
    pub salary: Money,
}

/// An enterprise's payroll: its employees and the account salaries come from.
pub struct SalaryProject {
    pub employees: Vec<Employee>,
    pub enterprise_accoint: TransactionEndPoint,
    pub accepted: bool,
}

pub struct SalaryProjectResp {
    pub enterprise: String,
    pub proj: SalaryProject,
}

/// Salary projects and pending salary requests, per enterprise login.
pub struct SalaryService {
    pub salary_requests: LoginTable<Vec<SalaryClientRequest>>,
    pub salary_projects: LoginTable<SalaryProject>,
}

/// `s` with item `i` replaced by the last one and the last one dropped.
pub open spec fn swap_removed<T>(s: Seq<T>, i: int) -> Seq<T> {
    s.update(i, s.last()).drop_last()
}

impl SalaryService {
    pub open spec fn wf(&self) -> bool {
        &&& self.salary_requests.wf()
        &&& self.salary_projects.wf()
    }

    /// Pending requests addressed to `enterprise`.
    pub open spec fn requests_of(&self, enterprise: Seq<char>) -> Seq<SalaryClientRequest> {
        match self.salary_requests.get(enterprise) {
            Some(v) => v@,
            None => Seq::empty(),
        }
    }

    /// The salary project of `enterprise`.
    pub open spec fn project_of(&self, enterprise: Seq<char>) -> Option<SalaryProject> {
        self.salary_projects.get(enterprise)
    }

    /// What `salary_accept_decline` returns.
    pub open spec fn accept_decline_check(&self, enterprise: Seq<char>, idx: int) -> Result<(), BankError> {
        if !(self.project_of(enterprise) matches Some(p) && p.accepted) {
            Err(BankError::PayrollProjectNotAccepted)
        } else if idx >= self.requests_of(enterprise).len() {
            Err(BankError::IndexOutOfRange)
        } else {
            Ok(())
        }
    }

    pub fn new() -> (r: SalaryService)
        ensures
            r.wf(),
            forall|e: Seq<char>| r.requests_of(e) == Seq::<SalaryClientRequest>::empty(),
            forall|e: Seq<char>| r.project_of(e) is None,
    {
        SalaryService { salary_requests: LoginTable::new(), salary_projects: LoginTable::new() }
    }

    /// Queues `req` under its enterprise.
    pub fn salary_request(&mut self, req: SalaryClientRequest) -> (r: Result<(), BankError>)
        requires
            old(self).wf(),
        ensures
            final(self).wf(),
            r is Ok,
            final(self).requests_of(req.enterprise_name@) == old(self).requests_of(req.enterprise_name@).push(req),
            forall|e: Seq<char>| e != req.enterprise_name@ ==> final(self).requests_of(e) == old(self).requests_of(e),
            final(self).salary_projects == old(self).salary_projects,
    {
        let ghost rq = req;
        let ghost e = req.enterprise_name@;
        match self.salary_requests.find(&req.enterprise_name) {
            Some(i) => {
                self.salary_requests.entries[i].value.push(req);
                proof {
                    LoginTable::lemma_update(&old(self).salary_requests, &self.salary_requests, i as int);
                }
            },
            None => {
                let name = req.enterprise_name.clone();
                let mut v: Vec<SalaryClientRequest> = Vec::new();
                v.push(req);
                self.salary_requests.push_new(name, v);
                proof {
                    assert(self.requests_of(e) =~= old(self).requests_of(e).push(rq));
                }
            },
        }
        Ok(())
    }

    /// Accepts or declines pending request `req.idx` of `enterprise`. Fails
    /// with `PayrollProjectNotAccepted` unless the enterprise has an accepted
    /// project, and with `IndexOutOfRange` when there is no such request.
    /// The request is swap-removed; when accepted, the client becomes an
    /// employee with salary `req.salary`.
    pub fn salary_accept_decline(&mut self, enterprise: &String, req: &SalaryAcceptRequest) -> (r: Result<(), BankError>)
        requires
            old(self).wf(),
        ensures
            final(self).wf(),
            r == old(self).accept_decline_check(enterprise@, req.idx as int),
            r is Err ==> *final(self) == *old(self),
            r is Ok ==> {
                let q = old(self).requests_of(enterprise@)[req.idx as int];
                let p0 = old(self).project_of(enterprise@).unwrap();
                let p1 = final(self).project_of(enterprise@).unwrap();
                &&& final(self).requests_of(enterprise@) == swap_removed(old(self).requests_of(enterprise@), req.idx as int)
                &&& forall|e: Seq<char>| e != enterprise@ ==> final(self).requests_of(e) == old(self).requests_of(e)
                &&& forall|e: Seq<char>| e != enterprise@ ==> final(self).project_of(e) == old(self).project_of(e)
                &&& final(self).project_of(enterprise@) is Some
                &&& p1.accepted == p0.accepted
                &&& p1.enterprise_accoint == p0.enterprise_accoint
                &&& p1.employees@ == if req.accept {
                    p0.employees@.push(Employee { login: q.client_login, account: q.account, salary: req.salary })
                } else {
                    p0.employees@
                }
            },
    {
        let pi = match self.salary_projects.find(enterprise) {
            None => {
                return Err(BankError::PayrollProjectNotAccepted);
            },
            Some(pi) => pi,
        };
        if !self.salary_projects.entries[pi].value.accepted {
            return Err(BankError::PayrollProjectNotAccepted);
        }
        let ri = match self.salary_requests.find(enterprise) {
            None => {
                return Err(BankError::IndexOutOfRange);
            },
            Some(ri) => ri,
        };
        if req.idx >= self.salary_requests.entries[ri].value.len() {
            return Err(BankError::IndexOutOfRange);
        }
        let request = self.salary_requests.entries[ri].value.swap_remove(req.idx);
        proof {
            LoginTable::lemma_update(&old(self).salary_requests, &self.salary_requests, ri as int);
        }
        if req.accept {
            let ghost mid = *self;
            self.salary_projects.entries[pi].value.employees.push(
                Employee { login: request.client_login, account: request.account, salary: req.salary },
            );
            proof {
                LoginTable::lemma_update(&mid.salary_projects, &self.salary_projects, pi as int);
            }
        }
        Ok(())
    }

    /// Creates a fresh, not yet accepted salary project for `enterprise`,
    /// replacing any earlier one.
    pub fn init_salary_proj(&mut self, enterprise: String, account: TransactionEndPoint)
        requires
            old(self).wf(),
        ensures
            final(self).wf(),
            final(self).project_of(enterprise@) matches Some(p) && p.employees@.len() == 0
                && p.enterprise_accoint == account && !p.accepted,
            forall|e: Seq<char>| e != enterprise@ ==> final(self).project_of(e) == old(self).project_of(e),
            final(self).salary_requests == old(self).salary_requests,
    {
        let proj = SalaryProject { employees: Vec::new(), enterprise_accoint: account, accepted: false };
        match self.salary_projects.find(&enterprise) {
            Some(i) => {
                self.salary_projects.entries[i].value = proj;
                proof {
                    LoginTable::lemma_update(&old(self).salary_projects, &self.salary_projects, i as int);
                }
            },
            None => {
                self.salary_projects.push_new(enterprise, proj);
            },
        }
    }

    /// Marks the salary project of `enterprise` accepted; fails with
    /// `PayrollProjectNotAccepted` when the enterprise has no project.
    pub fn accept_salary_proj(&mut self, enterprise: &String) -> (r: Result<(), BankError>)
        requires
            old(self).wf(),
        ensures
            final(self).wf(),
            r is Err <==> old(self).project_of(enterprise@) is None,
            r is Err ==> r == Err::<(), BankError>(BankError::PayrollProjectNotAccepted) && *final(self) == *old(self),
            r is Ok ==> {
                let p0 = old(self).project_of(enterprise@).unwrap();
                &&& final(self).project_of(enterprise@) matches Some(p1) && p1.accepted
                    && p1.employees == p0.employees && p1.enterprise_accoint == p0.enterprise_accoint
                &&& forall|e: Seq<char>| e != enterprise@ ==> final(self).project_of(e) == old(self).project_of(e)
                &&& final(self).salary_requests == old(self).salary_requests
            },
    {
        match self.salary_projects.find(enterprise) {
            None => Err(BankError::PayrollProjectNotAccepted),
            Some(i) => {
                self.salary_projects.entries[i].value.accepted = true;
                proof {
                    LoginTable::lemma_update(&old(self).salary_projects, &self.salary_projects, i as int);
                }
                Ok(())
            },
        }
    }

    /// A copy of the pending requests of `enterprise`; fails with
    /// `IndexOutOfRange` when there are none.
    pub fn salary_accept_decline_get(&self, enterprise: &String) -> (r: Result<Vec<SalaryClientRequest>, BankError>)
        requires
            self.wf(),
        ensures
            r is Err <==> self.requests_of(enterprise@).len() == 0,
            r is Err ==> r == Err::<Vec<SalaryClientRequest>, BankError>(BankError::IndexOutOfRange),
            r matches Ok(v) ==> v@ == self.requests_of(enterprise@),
    {
        match self.salary_requests.find(enterprise) {
            None => Err(BankError::IndexOutOfRange),
            Some(i) => {
                let src = &self.salary_requests.entries[i].value;
                if src.len() == 0 {
                    return Err(BankError::IndexOutOfRange);
                }
                let mut out: Vec<SalaryClientRequest> = Vec::new();
                let mut j: usize = 0;
                while j < src.len()
                    invariant
                        j <= src@.len(),
                        out@ == src@.subrange(0, j as int),
                    decreases src@.len() - j,
                {
                    out.push(src[j].duplicate());
                    j = j + 1;
                    proof {
                        assert(out@ =~= src@.subrange(0, j as int));
                    }
                }
                proof {
                    assert(out@ =~= src@);
                }
                Ok(out)
            },
        }
    }
}

} // verus!
