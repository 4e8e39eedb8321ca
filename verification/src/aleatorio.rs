//! Fonte de numeros pseudoaleatorios injetavel: um gerador com semente
//! explicita, para que toda operacao que sorteia receba sua fonte e as
//! execucoes possam ser reproduzidas.
use vstd::prelude::*;

verus! {

#[verifier::external_type_specification]
#[verifier::external_body]
pub struct ExStdRng(rand::rngs::StdRng);

/// Um gerador de numeros pseudoaleatorios com semente explicita. O valor
/// sorteado depende do estado interno: os contratos prometem apenas o
/// intervalo de cada sorteio, nunca o valor.
pub struct Gerador {
    rng: rand::rngs::StdRng,
}

impl Gerador {
    /// Confia em `rand::SeedableRng::seed_from_u64` para `StdRng`: constroi
    /// um gerador a partir da semente dada.
    #[verifier::external_body]
    pub fn nova(semente: u64) -> Gerador {
        Gerador { rng: <rand::rngs::StdRng as rand::SeedableRng>::seed_from_u64(semente) }
    }

    /// Confia em `rand::Rng::gen_range` sobre `0..limite`: devolve um valor
    /// do intervalo, e so o intervalo esta prometido. A exigencia
    /// `limite >= 1` afasta o intervalo vazio, com o qual a chamada
    /// abortaria.
    #[verifier::external_body]
    pub fn abaixo_de(&mut self, limite: usize) -> (r: usize)
        requires
            limite >= 1,
        ensures
            r < limite,
    {
        rand::Rng::gen_range(&mut self.rng, 0..limite)
    }

    /// Confia em `rand::Rng::gen_range` sobre `0..limite`, na largura de
    /// `u64`: devolve um valor do intervalo, e so o intervalo esta
    /// prometido. A exigencia `limite >= 1` afasta o intervalo vazio, com o
    /// qual a chamada abortaria.
    #[verifier::external_body]
    pub fn abaixo_de_u64(&mut self, limite: u64) -> (r: u64)
        requires
            limite >= 1,
        ensures
            r < limite,
    {
        rand::Rng::gen_range(&mut self.rng, 0..limite)
    }
}

} // verus!
