//! The records that the handlers store and publish, and the bodies they take.
use vstd::prelude::*;

verus! {

/// Where a transaction stands in the approval workflow.
#[derive(Debug, PartialEq, Eq, Structural, Clone, Copy)]
pub enum TransactionStatus {
    PENDING,
    REVIEW,
    APPROVED,
    REJECTED,
}

/// The name each status has on the wire.
pub open spec fn status_name(s: TransactionStatus) -> Seq<char> {
    match s {
        TransactionStatus::PENDING => "pending"@,
        TransactionStatus::REVIEW => "review"@,
        TransactionStatus::APPROVED => "approved"@,
        TransactionStatus::REJECTED => "rejected"@,
    }
}

/// Whether two strings hold the same characters.
pub fn str_equal(a: &str, b: &str) -> (r: bool)
    ensures
        r == (a@ == b@),
{
    let n = a.unicode_len();
    if n != b.unicode_len() {
        return false;
    }
    let mut i: usize = 0;
    while i < n
        invariant
            n == a@.len(),
            n == b@.len(),
            i <= n,
            forall|k: int| 0 <= k < i ==> a@[k] == b@[k],
        decreases n - i,
    {
        if a.get_char(i) != b.get_char(i) {
            return false;
        }
        i = i + 1;
    }
    assert(a@ =~= b@);
    true
}

impl TransactionStatus {
    pub fn as_str(&self) -> (r: &'static str)
        ensures
            r@ == status_name(*self),
    {
        match self {
            TransactionStatus::PENDING => "pending",
            TransactionStatus::REVIEW => "review",
            TransactionStatus::APPROVED => "approved",
            TransactionStatus::REJECTED => "rejected",
        }
    }

    /// The status with this wire name, if any.
    pub fn parse(s: &str) -> (r: Option<TransactionStatus>)
        ensures
            r.is_some() ==> status_name(r.unwrap()) == s@,
            r is None ==> forall|t: TransactionStatus| status_name(t) != s@,
    {
        proof {
            reveal_strlit("pending");
            reveal_strlit("review");
            reveal_strlit("approved");
            reveal_strlit("rejected");
        }
        if str_equal(s, "pending") {
            Some(TransactionStatus::PENDING)
        } else if str_equal(s, "review") {
            Some(TransactionStatus::REVIEW)
        } else if str_equal(s, "approved") {
            Some(TransactionStatus::APPROVED)
        } else if str_equal(s, "rejected") {
            Some(TransactionStatus::REJECTED)
        } else {
            assert forall|t: TransactionStatus| status_name(t) != s@ by {
                match t {
                    TransactionStatus::PENDING => {},
                    TransactionStatus::REVIEW => {},
                    TransactionStatus::APPROVED => {},
                    TransactionStatus::REJECTED => {},
                }
            }
            None
        }
    }
}

/// A payment transaction awaiting review.
#[derive(Debug, Clone)]
pub struct Transaction {
    /// The store's id, as hex; `None` until stored.
    pub id: Option<String>,
    pub metodo_pago: String,
    pub monto: String,
    pub cuenta_consignacion: String,
    pub referencia: String,
    pub cuenta_origen: String,
    pub beneficiario: String,
    pub tel_whatsapp_send: String,
    pub estado: TransactionStatus,
    pub url_soporte: String,
    pub date: String,
}

/// The body of a request that creates a transaction.
#[derive(Debug)]
pub struct CreateTransactionDto {
    pub metodo_pago: String,
    pub monto: String,
    pub cuenta_consignacion: String,
    pub referencia: String,
    pub cuenta_origen: String,
    pub beneficiario: String,
    pub tel_whatsapp_send: String,
    pub estado: String,
    pub url_soporte: String,
    pub date: String,
}

/// The body of a request that changes a transaction's status.
#[derive(Debug)]
pub struct UpdateStatusDto {
    pub estado: String,
}

impl Transaction {
    /// A new transaction from a creation request: not yet stored, and pending
    /// whatever status the request names.
    pub fn from_create(dto: CreateTransactionDto) -> (r: Transaction)
        ensures
            r.id is None,
            r.estado == TransactionStatus::PENDING,
            r.metodo_pago == dto.metodo_pago,
            r.monto == dto.monto,
            r.cuenta_consignacion == dto.cuenta_consignacion,
            r.referencia == dto.referencia,
            r.cuenta_origen == dto.cuenta_origen,
            r.beneficiario == dto.beneficiario,
            r.tel_whatsapp_send == dto.tel_whatsapp_send,
            r.url_soporte == dto.url_soporte,
            r.date == dto.date,
    {
        Transaction {
            id: None,
            metodo_pago: dto.metodo_pago,
            monto: dto.monto,
            cuenta_consignacion: dto.cuenta_consignacion,
            referencia: dto.referencia,
            cuenta_origen: dto.cuenta_origen,
            beneficiario: dto.beneficiario,
            tel_whatsapp_send: dto.tel_whatsapp_send,
            estado: TransactionStatus::PENDING,
            url_soporte: dto.url_soporte,
            date: dto.date,
        }
    }
}

/// A registered user; `password` holds the password's hash.
#[derive(Debug, Clone)]
pub struct User {
    pub id: Option<String>,
    pub name: String,
    pub lastname: String,
    pub email: String,
    pub password: String,
    pub celular: String,
}

/// The body of a request that registers a user.
#[derive(Debug)]
pub struct CreateUserDto {
    pub name: String,
    pub lastname: String,
    pub email: String,
    pub password: String,
    pub celular: String,
}

/// The body of a request that changes a user: each field given replaces the
/// stored one.
#[derive(Debug)]
pub struct UpdateUserDto {
    pub name: Option<String>,
    pub lastname: Option<String>,
    pub celular: Option<String>,
}

impl User {
    /// A new user from a registration request, holding `password_hash` in
    /// place of the plain password.
    pub fn from_create(dto: CreateUserDto, password_hash: String) -> (r: User)
        ensures
            r.id is None,
            r.name == dto.name,
            r.lastname == dto.lastname,
            r.email == dto.email,
            r.password == password_hash,
            r.celular == dto.celular,
    {
        User {
            id: None,
            name: dto.name,
            lastname: dto.lastname,
            email: dto.email,
            password: password_hash,
            celular: dto.celular,
        }
    }

    /// Replaces each field that `update` gives.
    pub fn apply_update(&mut self, update: UpdateUserDto)
        ensures
            final(self).id == old(self).id,
            final(self).email == old(self).email,
            final(self).password == old(self).password,
            final(self).name == match update.name { Some(v) => v, None => old(self).name },
            final(self).lastname == match update.lastname { Some(v) => v, None => old(self).lastname },
            final(self).celular == match update.celular { Some(v) => v, None => old(self).celular },
    {
        match update.name {
            Some(v) => {
                self.name = v;
            },
            None => {},
        }
        match update.lastname {
            Some(v) => {
                self.lastname = v;
            },
            None => {},
        }
        match update.celular {
            Some(v) => {
                self.celular = v;
            },
            None => {},
        }
    }
}

/// The body of a login request.
#[derive(Debug)]
pub struct LoginDto {
    pub email: String,
    pub password: String,
}

/// The body of a successful login.
#[derive(Debug)]
pub struct LoginResponse {
    pub token: String,
}

/// What a session token asserts: its subject and its expiry in seconds since
/// the epoch.
#[derive(Debug, Clone)]
pub struct Claims {
    pub sub: String,
    pub exp: i64,
}

/// Seconds in an hour.
pub const SECS_PER_HOUR: i64 = 3600;

impl Claims {
    /// Claims for `subject` that expire `hours` after `now` (seconds since the
    /// epoch); `None` when the expiry does not fit in an `i64`.
    pub fn expiring(subject: String, now: i64, hours: i64) -> (r: Option<Claims>)
        ensures
            r.is_some() <==> i64::MIN <= hours * SECS_PER_HOUR <= i64::MAX
                && i64::MIN <= now + hours * SECS_PER_HOUR <= i64::MAX,
            r.is_some() ==> r.unwrap().sub == subject && r.unwrap().exp == now + hours * SECS_PER_HOUR,
    {
        match hours.checked_mul(SECS_PER_HOUR) {
            None => None,
            Some(secs) => match now.checked_add(secs) {
                None => None,
                Some(exp) => Some(Claims { sub: subject, exp }),
            },
        }
    }
}

} // verus!
